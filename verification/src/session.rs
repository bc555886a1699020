//! Map sessions and their registry: the bookkeeping behind the embedding's
//! map views.  The registry is an explicit context object — sessions are
//! created, looked up, updated and destroyed through it, and each session
//! queues the render messages its render task must act on.  All positions
//! are integers: degrees in millionths, zoom (resolution) in thousandths.

use vstd::prelude::*;

verus! {

/// Physical size of the map in pixels.
#[derive(Clone, Copy, PartialEq, Eq, Structural, Debug)]
pub struct MapSize {
    /// Width in pixels.
    pub width: u32,
    /// Height in pixels.
    pub height: u32,
}

/// Frame-rate configuration a session's render loop starts with.
#[derive(Clone, Copy, PartialEq, Eq, Structural, Debug)]
pub struct RenderConfig {
    /// Target frames per second.
    pub fps: u32,
}

/// Geographic position, in millionths of a degree.
#[derive(Clone, Copy, PartialEq, Eq, Structural, Debug)]
pub struct MapPosition {
    /// Latitude in millionths of a degree.
    pub latitude_micro: i64,
    /// Longitude in millionths of a degree.
    pub longitude_micro: i64,
}

/// Map viewport: centre, zoom and rotation.
#[derive(Clone, Copy, PartialEq, Eq, Structural, Debug)]
pub struct MapViewport {
    /// Centre of the view.
    pub center: MapPosition,
    /// Resolution in thousandths of a map unit per pixel; smaller is closer.
    pub zoom_milli: u64,
    /// Rotation in thousandths of a degree.
    pub rotation_milli: i64,
}

/// Largest magnitude a stored coordinate may reach, in micro-degrees.
pub const POSITION_LIMIT_MICRO: i64 = 1_000_000_000_000;

/// Smallest zoom resolution kept, in thousandths.
pub const MIN_ZOOM_MILLI: u64 = 100;

/// Largest zoom resolution kept, in thousandths.
pub const MAX_ZOOM_MILLI: u64 = 1_000_000_000_000_000;

/// Micro-degrees one pixel of pan moves the centre.
pub const PAN_STEP_MICRO: i64 = 100;

/// Clamps a value into an inclusive range.
pub open spec fn spec_clamp(v: int, lo: int, hi: int) -> int {
    if v < lo {
        lo
    } else if v > hi {
        hi
    } else {
        v
    }
}

impl MapViewport {
    /// Coordinates and zoom stay within the supported ranges.
    pub open spec fn wf(self) -> bool {
        &&& -POSITION_LIMIT_MICRO <= self.center.latitude_micro <= POSITION_LIMIT_MICRO
        &&& -POSITION_LIMIT_MICRO <= self.center.longitude_micro <= POSITION_LIMIT_MICRO
        &&& MIN_ZOOM_MILLI <= self.zoom_milli <= MAX_ZOOM_MILLI
    }

    /// The viewport a session starts with: centred on the equator and the
    /// prime meridian, unit resolution, no rotation.
    pub open spec fn spec_initial() -> MapViewport {
        MapViewport {
            center: MapPosition { latitude_micro: 0, longitude_micro: 0 },
            zoom_milli: 1000u64,
            rotation_milli: 0,
        }
    }

    /// Builds the viewport a session starts with.
    pub fn initial() -> (r: MapViewport)
        ensures
            r == MapViewport::spec_initial(),
            r.wf(),
    {
        MapViewport {
            center: MapPosition { latitude_micro: 0, longitude_micro: 0 },
            zoom_milli: 1000,
            rotation_milli: 0,
        }
    }

    /// The viewport with every field pulled into its supported range.
    pub open spec fn spec_clamped(self) -> MapViewport {
        MapViewport {
            center: MapPosition {
                latitude_micro: spec_clamp(
                    self.center.latitude_micro as int,
                    -POSITION_LIMIT_MICRO as int,
                    POSITION_LIMIT_MICRO as int,
                ) as i64,
                longitude_micro: spec_clamp(
                    self.center.longitude_micro as int,
                    -POSITION_LIMIT_MICRO as int,
                    POSITION_LIMIT_MICRO as int,
                ) as i64,
            },
            zoom_milli: spec_clamp(
                self.zoom_milli as int,
                MIN_ZOOM_MILLI as int,
                MAX_ZOOM_MILLI as int,
            ) as u64,
            rotation_milli: self.rotation_milli,
        }
    }

    /// Pulls every field into its supported range.
    pub fn clamped(self) -> (r: MapViewport)
        ensures
            r == self.spec_clamped(),
            r.wf(),
    {
        let lat = if self.center.latitude_micro < -POSITION_LIMIT_MICRO {
            -POSITION_LIMIT_MICRO
        } else if self.center.latitude_micro > POSITION_LIMIT_MICRO {
            POSITION_LIMIT_MICRO
        } else {
            self.center.latitude_micro
        };
        let lon = if self.center.longitude_micro < -POSITION_LIMIT_MICRO {
            -POSITION_LIMIT_MICRO
        } else if self.center.longitude_micro > POSITION_LIMIT_MICRO {
            POSITION_LIMIT_MICRO
        } else {
            self.center.longitude_micro
        };
        let zoom = if self.zoom_milli < MIN_ZOOM_MILLI {
            MIN_ZOOM_MILLI
        } else if self.zoom_milli > MAX_ZOOM_MILLI {
            MAX_ZOOM_MILLI
        } else {
            self.zoom_milli
        };
        MapViewport {
            center: MapPosition { latitude_micro: lat, longitude_micro: lon },
            zoom_milli: zoom,
            rotation_milli: self.rotation_milli,
        }
    }
}

/// The viewport after a pan: the centre moves against the drag, one pan
/// step per pixel, and is clamped to the supported range.
pub open spec fn spec_panned(v: MapViewport, delta_x: i32, delta_y: i32) -> MapViewport {
    MapViewport {
        center: MapPosition {
            latitude_micro: spec_clamp(
                v.center.latitude_micro - delta_y * PAN_STEP_MICRO,
                -POSITION_LIMIT_MICRO as int,
                POSITION_LIMIT_MICRO as int,
            ) as i64,
            longitude_micro: spec_clamp(
                v.center.longitude_micro + delta_x * PAN_STEP_MICRO,
                -POSITION_LIMIT_MICRO as int,
                POSITION_LIMIT_MICRO as int,
            ) as i64,
        },
        ..v
    }
}

/// Applies a pan to a viewport.
pub fn pan_viewport(v: MapViewport, delta_x: i32, delta_y: i32) -> (r: MapViewport)
    requires
        v.wf(),
    ensures
        r == spec_panned(v, delta_x, delta_y),
        r.wf(),
{
    let lat_raw = v.center.latitude_micro - (delta_y as i64) * PAN_STEP_MICRO;
    let lon_raw = v.center.longitude_micro + (delta_x as i64) * PAN_STEP_MICRO;
    let lat = if lat_raw < -POSITION_LIMIT_MICRO {
        -POSITION_LIMIT_MICRO
    } else if lat_raw > POSITION_LIMIT_MICRO {
        POSITION_LIMIT_MICRO
    } else {
        lat_raw
    };
    let lon = if lon_raw < -POSITION_LIMIT_MICRO {
        -POSITION_LIMIT_MICRO
    } else if lon_raw > POSITION_LIMIT_MICRO {
        POSITION_LIMIT_MICRO
    } else {
        lon_raw
    };
    MapViewport { center: MapPosition { latitude_micro: lat, longitude_micro: lon }, ..v }
}

/// The zoom after a pinch: the resolution is divided by the scale factor
/// (clamped to a tenth through tenfold), then kept within range.  A factor
/// above one thousand thousandths zooms in; below, out.
pub open spec fn spec_scaled_zoom(zoom_milli: u64, scale_milli: u32) -> u64 {
    let c = spec_clamp(scale_milli as int, 100, 10000);
    let raw = zoom_milli * 1000 / c;
    spec_clamp(raw, MIN_ZOOM_MILLI as int, MAX_ZOOM_MILLI as int) as u64
}

/// Applies a pinch scale to a zoom resolution.
pub fn scale_zoom(zoom_milli: u64, scale_milli: u32) -> (r: u64)
    requires
        zoom_milli <= MAX_ZOOM_MILLI,
    ensures
        r == spec_scaled_zoom(zoom_milli, scale_milli),
        MIN_ZOOM_MILLI <= r <= MAX_ZOOM_MILLI,
{
    let c: u64 = if scale_milli < 100 {
        100
    } else if scale_milli > 10000 {
        10000
    } else {
        scale_milli as u64
    };
    let raw = zoom_milli * 1000 / c;
    if raw < MIN_ZOOM_MILLI {
        MIN_ZOOM_MILLI
    } else if raw > MAX_ZOOM_MILLI {
        MAX_ZOOM_MILLI
    } else {
        raw
    }
}

/// Layer configuration for different types of map layers.
#[derive(Clone, PartialEq, Eq, Debug)]
pub enum LayerConfig {
    /// OpenStreetMap raster tile layer.
    Osm,
    /// Custom raster tile layer with a URL template.
    RasterTiles {
        /// Template the per-tile URLs are built from.
        url_template: String,
        /// Attribution text shown for the layer.
        attribution: Option<String>,
    },
}

/// Kinds of touch events.
#[derive(Clone, Copy, PartialEq, Eq, Structural, Debug)]
pub enum TouchEventType {
    /// A finger went down.
    Down,
    /// A finger moved.
    Move,
    /// A finger went up.
    Up,
}

/// One touch on the map, in pixels.
#[derive(Clone, Copy, PartialEq, Eq, Structural, Debug)]
pub struct TouchEvent {
    /// What the finger did.
    pub event_type: TouchEventType,
    /// Horizontal pixel position.
    pub x: i32,
    /// Vertical pixel position.
    pub y: i32,
}

/// Phases of a pan gesture.
#[derive(Clone, Copy, PartialEq, Eq, Structural, Debug)]
pub enum PanEventType {
    /// The gesture began.
    Start,
    /// The gesture moved.
    Update,
    /// The gesture ended.
    End,
}

/// One step of a pan gesture, in pixels.
#[derive(Clone, Copy, PartialEq, Eq, Structural, Debug)]
pub struct PanEvent {
    /// Which phase of the gesture this is.
    pub event_type: PanEventType,
    /// Horizontal movement in pixels.
    pub delta_x: i32,
    /// Vertical movement in pixels.
    pub delta_y: i32,
}

/// One step of a pinch gesture.
#[derive(Clone, Copy, PartialEq, Eq, Structural, Debug)]
pub struct ScaleEvent {
    /// Scale factor in thousandths; one thousand leaves the zoom unchanged.
    pub scale_milli: u32,
    /// Horizontal pixel position of the gesture's focus.
    pub focal_x: i32,
    /// Vertical pixel position of the gesture's focus.
    pub focal_y: i32,
}

/// One wheel or trackpad scroll step.
#[derive(Clone, Copy, PartialEq, Eq, Structural, Debug)]
pub struct ScrollEvent {
    /// Scroll amount in thousandths of a step.
    pub delta_milli: i32,
}

/// Failure of a session-registry operation.
#[derive(Clone, Copy, PartialEq, Eq, Structural, Debug)]
pub enum SessionError {
    /// No session is registered under the id.
    SessionNotFound(i64),
}

/// Messages a session queues for its render task.
#[derive(Clone, Copy, PartialEq, Eq, Structural, Debug)]
pub enum RenderMessage {
    /// Draw one frame.
    RenderFrame,
    /// Resize the render target.
    Resize(MapSize),
    /// The map changed; draw an updated frame.
    UpdateMap,
    /// Shut the render task down.
    Stop,
}

/// Milliseconds a frame must be apart from the previous one.
pub const SKIP_RENDER_INTERVAL_MS: u64 = 16;

/// The plain state of one map session.
pub struct SessionState {
    /// The engine the session renders for.
    pub engine_handle: i64,
    /// Texture the session draws into.
    pub texture_id: i64,
    /// Whether the session is still considered live.
    pub alive: bool,
    /// Where the view looks.
    pub viewport: MapViewport,
    /// Pixel size of the view.
    pub size: MapSize,
    /// Layers the map shows, in order.
    pub layers: Vec<LayerConfig>,
    /// Messages the render task has not taken yet, in order.
    pub pending: Vec<RenderMessage>,
    /// When the session last rendered, in milliseconds.
    pub last_rendered_ms: Option<u64>,
}

impl SessionState {
    /// The viewport stays within its ranges.
    pub open spec fn wf(self) -> bool {
        self.viewport.wf()
    }

    /// A fresh, live session with the initial viewport and nothing queued.
    pub fn new(engine_handle: i64, texture_id: i64, size: MapSize) -> (r: SessionState)
        ensures
            r.engine_handle == engine_handle,
            r.texture_id == texture_id,
            r.alive,
            r.viewport == MapViewport::spec_initial(),
            r.size == size,
            r.layers@ =~= Seq::<LayerConfig>::empty(),
            r.pending@ =~= Seq::<RenderMessage>::empty(),
            r.last_rendered_ms is None,
            r.wf(),
    {
        SessionState {
            engine_handle,
            texture_id,
            alive: true,
            viewport: MapViewport::initial(),
            size,
            layers: Vec::new(),
            pending: Vec::new(),
            last_rendered_ms: None,
        }
    }

    /// Whether the session is still considered live.
    pub fn is_alive(&self) -> (r: bool)
        ensures
            r == self.alive,
    {
        self.alive
    }

    /// Marks the session live.
    pub fn mark_alive(&mut self)
        ensures
            *final(self) == (SessionState { alive: true, ..*old(self) }),
    {
        self.alive = true;
    }

    /// Rate limit for redraws: a frame may render when none has rendered
    /// yet, or the skip interval has passed since the last one; rendering
    /// now records the time.
    pub fn can_render(&mut self, now_ms: u64) -> (r: bool)
        ensures
            match old(self).last_rendered_ms {
                None => r && *final(self) == (SessionState {
                    last_rendered_ms: Some(now_ms),
                    ..*old(self)
                }),
                Some(last) => if now_ms >= last + SKIP_RENDER_INTERVAL_MS {
                    r && *final(self) == (SessionState {
                        last_rendered_ms: Some(now_ms),
                        ..*old(self)
                    })
                } else {
                    !r && *final(self) == *old(self)
                },
            },
    {
        match self.last_rendered_ms {
            None => {
                self.last_rendered_ms = Some(now_ms);
                true
            },
            Some(last) => {
                if now_ms >= last && now_ms - last >= SKIP_RENDER_INTERVAL_MS {
                    self.last_rendered_ms = Some(now_ms);
                    true
                } else {
                    false
                }
            },
        }
    }
}

/// Facade of one map session as the embedding's UI binding sees it.  The
/// working interface is the registry; this type mirrors the binding surface
/// and holds the view state the binding tracks on its own.
pub struct GalileoMapSession {
    /// The viewport the binding last saw or set.
    pub viewport: MapViewport,
}

impl GalileoMapSession {
    /// Creates the binding-side session facade.
    pub fn new(size: MapSize, config: RenderConfig) -> (r: GalileoMapSession)
        ensures
            r.viewport == MapViewport::spec_initial(),
    {
        let _ = size;
        let _ = config;
        GalileoMapSession { viewport: MapViewport::initial() }
    }

    /// Takes a resize; the real target lives with the render task.
    pub fn resize(&self, size: MapSize)
    {
        let _ = size;
    }

    /// Records the viewport the binding set, clamped into range.
    pub fn set_viewport(&mut self, viewport: MapViewport)
        ensures
            final(self).viewport == viewport.spec_clamped(),
    {
        self.viewport = viewport.clamped();
    }

    /// The viewport the binding last saw or set.
    pub fn get_viewport(&self) -> (r: MapViewport)
        ensures
            r == self.viewport,
    {
        self.viewport
    }

    /// Takes a touch event; the working path goes through the registry.
    pub fn handle_touch_event(&self, event: TouchEvent)
    {
        let _ = event;
    }

    /// Takes a scroll event; the working path goes through the registry.
    pub fn handle_scroll_event(&self, event: ScrollEvent)
    {
        let _ = event;
    }

    /// Takes a pan event; the working path goes through the registry.
    pub fn handle_pan_event(&self, event: PanEvent)
    {
        let _ = event;
    }

    /// Takes a scale event; the working path goes through the registry.
    pub fn handle_scale_event(&self, event: ScaleEvent)
    {
        let _ = event;
    }

    /// Accepts a layer configuration; adding the layer itself goes through
    /// the registry.
    pub fn add_layer(&self, config: LayerConfig) -> (r: Result<(), SessionError>)
        ensures
            r is Ok,
    {
        let _ = config;
        Ok(())
    }
}

/// The list changed only at position `p`, which carries the id.
pub open spec fn spec_updated_at(
    old_seq: Seq<(i64, SessionState)>,
    new_seq: Seq<(i64, SessionState)>,
    p: int,
    id: i64,
) -> bool {
    &&& new_seq.len() == old_seq.len()
    &&& forall|j: int| 0 <= j < old_seq.len() && j != p ==> new_seq[j] == old_seq[j]
    &&& 0 <= p < new_seq.len()
    &&& new_seq[p].0 == id
}

/// Everything of a session but its queue is the same.
pub open spec fn spec_same_but_pending(a: SessionState, b: SessionState) -> bool {
    &&& a.engine_handle == b.engine_handle
    &&& a.texture_id == b.texture_id
    &&& a.alive == b.alive
    &&& a.viewport == b.viewport
    &&& a.size == b.size
    &&& a.layers == b.layers
    &&& a.last_rendered_ms == b.last_rendered_ms
}

/// Everything of a session but its queue and viewport is the same.
pub open spec fn spec_same_but_viewport_pending(a: SessionState, b: SessionState) -> bool {
    &&& a.engine_handle == b.engine_handle
    &&& a.texture_id == b.texture_id
    &&& a.alive == b.alive
    &&& a.size == b.size
    &&& a.layers == b.layers
    &&& a.last_rendered_ms == b.last_rendered_ms
}

/// The registry of live map sessions: the explicit context the embedding
/// routes every session call through.  Sessions are keyed by the ids the
/// registry itself hands out.
pub struct SessionRegistry {
    /// Last id handed out.
    pub session_counter: i64,
    /// The registered sessions, each id at most once.
    pub sessions: Vec<(i64, SessionState)>,
}

impl SessionRegistry {
    /// Ids are unique and every session is well formed.
    pub open spec fn wf(self) -> bool {
        &&& forall|i: int, j: int|
            0 <= i < j < self.sessions@.len() ==> (#[trigger] self.sessions@[i]).0 != (
            #[trigger] self.sessions@[j]).0
        &&& forall|i: int|
            0 <= i < self.sessions@.len() ==> (#[trigger] self.sessions@[i]).1.wf()
    }

    /// Whether a session is registered under the id.
    pub open spec fn spec_has(self, id: i64) -> bool {
        exists|i: int| 0 <= i < self.sessions@.len() && (#[trigger] self.sessions@[i]).0 == id
    }

    /// Where the session with the id sits.
    pub open spec fn spec_pos(self, id: i64) -> int {
        choose|i: int| 0 <= i < self.sessions@.len() && (#[trigger] self.sessions@[i]).0 == id
    }

    /// The state registered under the id.
    pub open spec fn spec_get(self, id: i64) -> SessionState {
        self.sessions@[self.spec_pos(id)].1
    }

    /// An empty registry that has handed out no ids.
    pub fn new() -> (r: SessionRegistry)
        ensures
            r.session_counter == 0,
            r.sessions@ =~= Seq::<(i64, SessionState)>::empty(),
            r.wf(),
    {
        SessionRegistry { session_counter: 0, sessions: Vec::new() }
    }

    /// Advances the session counter and hands out the new id.
    pub fn create_new_session(&mut self) -> (id: i64)
        requires
            old(self).session_counter < i64::MAX,
        ensures
            final(self).session_counter == old(self).session_counter + 1,
            id == final(self).session_counter,
            final(self).sessions == old(self).sessions,
    {
        self.session_counter = self.session_counter + 1;
        self.session_counter
    }

    /// Finds the position of the session with the id.
    fn find_session(&self, id: i64) -> (r: Option<usize>)
        requires
            self.wf(),
        ensures
            r is Some <==> self.spec_has(id),
            r matches Some(i) ==> i == self.spec_pos(id) && i < self.sessions@.len()
                && self.sessions@[i as int].0 == id,
    {
        let mut i: usize = 0;
        while i < self.sessions.len()
            invariant
                self.wf(),
                0 <= i <= self.sessions@.len(),
                forall|j: int| 0 <= j < i ==> (#[trigger] self.sessions@[j]).0 != id,
            decreases self.sessions@.len() - i,
        {
            if self.sessions[i].0 == id {
                proof {
                    let p = self.spec_pos(id);
                    if p != i as int {
                        if p < i as int {
                            assert(self.sessions@[p].0 != id);
                        } else {
                            assert(self.sessions@[i as int].0 != self.sessions@[p].0);
                        }
                    }
                }
                return Some(i);
            }
            i += 1;
        }
        None
    }

    /// Registers a session under an id: a new id is appended, a known one
    /// replaced.
    pub fn register_session(&mut self, session_id: i64, state: SessionState)
        requires
            old(self).wf(),
            state.wf(),
        ensures
            final(self).wf(),
            final(self).session_counter == old(self).session_counter,
            old(self).spec_has(session_id) ==> final(self).sessions@ == old(self).sessions@.update(
                old(self).spec_pos(session_id),
                (session_id, state),
            ),
            !old(self).spec_has(session_id) ==> final(self).sessions@ == old(self).sessions@.push(
                (session_id, state),
            ),
    {
        match self.find_session(session_id) {
            Some(i) => {
                let ghost before = self.sessions@;
                let _previous = self.sessions.remove(i);
                self.sessions.insert(i, (session_id, state));
                proof {
                    assert(self.sessions@ =~= before.update(i as int, (session_id, state)));
                }
            },
            None => {
                self.sessions.push((session_id, state));
                proof {
                    assert forall|i: int, j: int|
                        0 <= i < j < self.sessions@.len() implies (#[trigger] self.sessions@[i]).0
                        != (#[trigger] self.sessions@[j]).0 by {
                        if j == self.sessions@.len() - 1 {
                            assert(!old(self).spec_has(session_id));
                            assert(old(self).sessions@[i].0 != session_id);
                        }
                    }
                }
            },
        }
    }

    /// Marks the session live; an unknown id changes nothing.
    pub fn mark_session_alive(&mut self, session_id: i64)
        requires
            old(self).wf(),
        ensures
            final(self).wf(),
            final(self).session_counter == old(self).session_counter,
            !old(self).spec_has(session_id) ==> final(self).sessions@ == old(self).sessions@,
            old(self).spec_has(session_id) ==> {
                let p = old(self).spec_pos(session_id);
                let s = old(self).spec_get(session_id);
                final(self).sessions@ == old(self).sessions@.update(
                    p,
                    (session_id, (SessionState { alive: true, ..s })),
                )
            },
    {
        match self.find_session(session_id) {
            Some(i) => {
                let ghost before = self.sessions@;
                let mut entry = self.sessions.remove(i);
                entry.1.mark_alive();
                self.sessions.insert(i, entry);
                proof {
                    assert(self.sessions@ =~= before.update(i as int, entry));
                }
            },
            None => {},
        }
    }

    /// Destroys the session registered under the id; an unknown id changes
    /// nothing.  The embedding tears its own render task down when the
    /// session disappears from the registry.
    pub fn destroy_session(&mut self, session_id: i64)
        requires
            old(self).wf(),
        ensures
            final(self).wf(),
            final(self).session_counter == old(self).session_counter,
            !final(self).spec_has(session_id),
            !old(self).spec_has(session_id) ==> final(self).sessions@ == old(self).sessions@,
            old(self).spec_has(session_id) ==> final(self).sessions@ == old(self).sessions@.remove(
                old(self).spec_pos(session_id),
            ),
    {
        match self.find_session(session_id) {
            Some(i) => {
                let ghost before = self.sessions@;
                let _removed = self.sessions.remove(i);
                proof {
                    assert forall|j: int|
                        0 <= j < self.sessions@.len() implies (#[trigger] self.sessions@[j]).0
                        != session_id by {
                        if j < i as int {
                            assert(self.sessions@[j] == before[j]);
                            assert(before[j].0 != before[i as int].0);
                        } else {
                            assert(self.sessions@[j] == before[j + 1]);
                            assert(before[i as int].0 != before[j + 1].0);
                        }
                    }
                }
            },
            None => {},
        }
    }

    /// Queues a map update for the session: its render task will draw an
    /// updated frame.
    pub fn trigger_map_update(&mut self, session_id: i64) -> (r: Result<(), SessionError>)
        requires
            old(self).wf(),
        ensures
            final(self).wf(),
            final(self).session_counter == old(self).session_counter,
            r is Err <==> !old(self).spec_has(session_id),
            r is Err ==> final(self).sessions@ == old(self).sessions@ && r == Err::<
                (),
                SessionError,
            >(SessionError::SessionNotFound(session_id)),
            r is Ok ==> {
                let p = old(self).spec_pos(session_id);
                let s = old(self).spec_get(session_id);
                &&& spec_updated_at(old(self).sessions@, final(self).sessions@, p, session_id)
                &&& spec_same_but_pending(s, final(self).sessions@[p].1)
                &&& final(self).sessions@[p].1.pending@ == s.pending@.push(
                    RenderMessage::UpdateMap,
                )
            },
    {
        match self.find_session(session_id) {
            Some(i) => {
                let ghost before = self.sessions@;
                let mut entry = self.sessions.remove(i);
                entry.1.pending.push(RenderMessage::UpdateMap);
                self.sessions.insert(i, entry);
                proof {
                    assert(self.sessions@ =~= before.update(i as int, entry));
                }
                Ok(())
            },
            None => Err(SessionError::SessionNotFound(session_id)),
        }
    }

    /// Queues a resize of the session's render target.
    pub fn resize_session_size(&mut self, session_id: i64, size: MapSize) -> (r: Result<
        (),
        SessionError,
    >)
        requires
            old(self).wf(),
        ensures
            final(self).wf(),
            final(self).session_counter == old(self).session_counter,
            r is Err <==> !old(self).spec_has(session_id),
            r is Err ==> final(self).sessions@ == old(self).sessions@ && r == Err::<
                (),
                SessionError,
            >(SessionError::SessionNotFound(session_id)),
            r is Ok ==> {
                let p = old(self).spec_pos(session_id);
                let s = old(self).spec_get(session_id);
                &&& spec_updated_at(old(self).sessions@, final(self).sessions@, p, session_id)
                &&& spec_same_but_pending(s, final(self).sessions@[p].1)
                &&& final(self).sessions@[p].1.pending@ == s.pending@.push(
                    RenderMessage::Resize(size),
                )
            },
    {
        match self.find_session(session_id) {
            Some(i) => {
                let ghost before = self.sessions@;
                let mut entry = self.sessions.remove(i);
                entry.1.pending.push(RenderMessage::Resize(size));
                self.sessions.insert(i, entry);
                proof {
                    assert(self.sessions@ =~= before.update(i as int, entry));
                }
                Ok(())
            },
            None => Err(SessionError::SessionNotFound(session_id)),
        }
    }

    /// Takes a touch on the session's map; for now it only queues a redraw.
    pub fn handle_session_touch_event(&mut self, session_id: i64, event: TouchEvent) -> (r: Result<
        (),
        SessionError,
    >)
        requires
            old(self).wf(),
        ensures
            final(self).wf(),
            final(self).session_counter == old(self).session_counter,
            r is Err <==> !old(self).spec_has(session_id),
            r is Err ==> final(self).sessions@ == old(self).sessions@ && r == Err::<
                (),
                SessionError,
            >(SessionError::SessionNotFound(session_id)),
            r is Ok ==> {
                let p = old(self).spec_pos(session_id);
                let s = old(self).spec_get(session_id);
                &&& spec_updated_at(old(self).sessions@, final(self).sessions@, p, session_id)
                &&& spec_same_but_pending(s, final(self).sessions@[p].1)
                &&& final(self).sessions@[p].1.pending@ == s.pending@.push(
                    RenderMessage::UpdateMap,
                )
            },
    {
        let _ = event;
        self.trigger_map_update(session_id)
    }

    /// Takes one step of a pan gesture: during the update phase the centre
    /// moves against the drag; every phase queues a redraw.
    pub fn handle_session_pan_event(&mut self, session_id: i64, event: PanEvent) -> (r: Result<
        (),
        SessionError,
    >)
        requires
            old(self).wf(),
        ensures
            final(self).wf(),
            final(self).session_counter == old(self).session_counter,
            r is Err <==> !old(self).spec_has(session_id),
            r is Err ==> final(self).sessions@ == old(self).sessions@ && r == Err::<
                (),
                SessionError,
            >(SessionError::SessionNotFound(session_id)),
            r is Ok ==> {
                let p = old(self).spec_pos(session_id);
                let s = old(self).spec_get(session_id);
                let v = if event.event_type is Update {
                    spec_panned(s.viewport, event.delta_x, event.delta_y)
                } else {
                    s.viewport
                };
                &&& spec_updated_at(old(self).sessions@, final(self).sessions@, p, session_id)
                &&& spec_same_but_viewport_pending(s, final(self).sessions@[p].1)
                &&& final(self).sessions@[p].1.viewport == v
                &&& final(self).sessions@[p].1.pending@ == s.pending@.push(
                    RenderMessage::UpdateMap,
                )
            },
    {
        match self.find_session(session_id) {
            Some(i) => {
                let ghost before = self.sessions@;
                let mut entry = self.sessions.remove(i);
                match event.event_type {
                    PanEventType::Update => {
                        entry.1.viewport = pan_viewport(
                            entry.1.viewport,
                            event.delta_x,
                            event.delta_y,
                        );
                    },
                    _ => {},
                }
                entry.1.pending.push(RenderMessage::UpdateMap);
                self.sessions.insert(i, entry);
                proof {
                    assert(self.sessions@ =~= before.update(i as int, entry));
                }
                Ok(())
            },
            None => Err(SessionError::SessionNotFound(session_id)),
        }
    }

    /// Takes one step of a pinch gesture: the zoom resolution is divided by
    /// the clamped scale factor, and a redraw is queued.
    pub fn handle_session_scale_event(&mut self, session_id: i64, event: ScaleEvent) -> (r: Result<
        (),
        SessionError,
    >)
        requires
            old(self).wf(),
        ensures
            final(self).wf(),
            final(self).session_counter == old(self).session_counter,
            r is Err <==> !old(self).spec_has(session_id),
            r is Err ==> final(self).sessions@ == old(self).sessions@ && r == Err::<
                (),
                SessionError,
            >(SessionError::SessionNotFound(session_id)),
            r is Ok ==> {
                let p = old(self).spec_pos(session_id);
                let s = old(self).spec_get(session_id);
                &&& spec_updated_at(old(self).sessions@, final(self).sessions@, p, session_id)
                &&& spec_same_but_viewport_pending(s, final(self).sessions@[p].1)
                &&& final(self).sessions@[p].1.viewport == (MapViewport {
                    zoom_milli: spec_scaled_zoom(s.viewport.zoom_milli, event.scale_milli),
                    ..s.viewport
                })
                &&& final(self).sessions@[p].1.pending@ == s.pending@.push(
                    RenderMessage::UpdateMap,
                )
            },
    {
        match self.find_session(session_id) {
            Some(i) => {
                let ghost before = self.sessions@;
                let mut entry = self.sessions.remove(i);
                let new_zoom = scale_zoom(entry.1.viewport.zoom_milli, event.scale_milli);
                entry.1.viewport = MapViewport { zoom_milli: new_zoom, ..entry.1.viewport };
                entry.1.pending.push(RenderMessage::UpdateMap);
                self.sessions.insert(i, entry);
                proof {
                    assert(self.sessions@ =~= before.update(i as int, entry));
                }
                Ok(())
            },
            None => Err(SessionError::SessionNotFound(session_id)),
        }
    }

    /// Reads the session's current viewport.
    pub fn get_session_viewport(&self, session_id: i64) -> (r: Result<MapViewport, SessionError>)
        requires
            self.wf(),
        ensures
            r is Err <==> !self.spec_has(session_id),
            r is Err ==> r == Err::<MapViewport, SessionError>(
                SessionError::SessionNotFound(session_id),
            ),
            r matches Ok(v) ==> v == self.spec_get(session_id).viewport,
    {
        match self.find_session(session_id) {
            Some(i) => Ok(self.sessions[i].1.viewport),
            None => Err(SessionError::SessionNotFound(session_id)),
        }
    }

    /// Replaces the session's viewport, clamped into range, and queues a
    /// redraw.
    pub fn set_session_viewport(&mut self, session_id: i64, viewport: MapViewport) -> (r: Result<
        (),
        SessionError,
    >)
        requires
            old(self).wf(),
        ensures
            final(self).wf(),
            final(self).session_counter == old(self).session_counter,
            r is Err <==> !old(self).spec_has(session_id),
            r is Err ==> final(self).sessions@ == old(self).sessions@ && r == Err::<
                (),
                SessionError,
            >(SessionError::SessionNotFound(session_id)),
            r is Ok ==> {
                let p = old(self).spec_pos(session_id);
                let s = old(self).spec_get(session_id);
                &&& spec_updated_at(old(self).sessions@, final(self).sessions@, p, session_id)
                &&& spec_same_but_viewport_pending(s, final(self).sessions@[p].1)
                &&& final(self).sessions@[p].1.viewport == viewport.spec_clamped()
                &&& final(self).sessions@[p].1.pending@ == s.pending@.push(
                    RenderMessage::UpdateMap,
                )
            },
    {
        match self.find_session(session_id) {
            Some(i) => {
                let ghost before = self.sessions@;
                let mut entry = self.sessions.remove(i);
                entry.1.viewport = viewport.clamped();
                entry.1.pending.push(RenderMessage::UpdateMap);
                self.sessions.insert(i, entry);
                proof {
                    assert(self.sessions@ =~= before.update(i as int, entry));
                }
                Ok(())
            },
            None => Err(SessionError::SessionNotFound(session_id)),
        }
    }

    /// Appends a layer to the session's map and queues a redraw.
    pub fn add_session_layer(&mut self, session_id: i64, layer_config: LayerConfig) -> (r: Result<
        (),
        SessionError,
    >)
        requires
            old(self).wf(),
        ensures
            final(self).wf(),
            final(self).session_counter == old(self).session_counter,
            r is Err <==> !old(self).spec_has(session_id),
            r is Err ==> final(self).sessions@ == old(self).sessions@ && r == Err::<
                (),
                SessionError,
            >(SessionError::SessionNotFound(session_id)),
            r is Ok ==> {
                let p = old(self).spec_pos(session_id);
                let s = old(self).spec_get(session_id);
                &&& spec_updated_at(old(self).sessions@, final(self).sessions@, p, session_id)
                &&& final(self).sessions@[p].1.layers@ == s.layers@.push(layer_config)
                &&& final(self).sessions@[p].1.pending@ == s.pending@.push(
                    RenderMessage::UpdateMap,
                )
                &&& final(self).sessions@[p].1.viewport == s.viewport
                &&& final(self).sessions@[p].1.alive == s.alive
                &&& final(self).sessions@[p].1.engine_handle == s.engine_handle
            },
    {
        match self.find_session(session_id) {
            Some(i) => {
                let ghost before = self.sessions@;
                let mut entry = self.sessions.remove(i);
                entry.1.layers.push(layer_config);
                entry.1.pending.push(RenderMessage::UpdateMap);
                self.sessions.insert(i, entry);
                proof {
                    assert(self.sessions@ =~= before.update(i as int, entry));
                }
                Ok(())
            },
            None => Err(SessionError::SessionNotFound(session_id)),
        }
    }

    /// Hands the session's queued render messages to the render task and
    /// clears the queue.
    pub fn take_pending(&mut self, session_id: i64) -> (r: Result<Vec<RenderMessage>, SessionError>)
        requires
            old(self).wf(),
        ensures
            final(self).wf(),
            final(self).session_counter == old(self).session_counter,
            r is Err <==> !old(self).spec_has(session_id),
            r is Err ==> final(self).sessions@ == old(self).sessions@ && r == Err::<
                Vec<RenderMessage>,
                SessionError,
            >(SessionError::SessionNotFound(session_id)),
            r matches Ok(msgs) ==> {
                let p = old(self).spec_pos(session_id);
                let s = old(self).spec_get(session_id);
                &&& msgs@ == s.pending@
                &&& spec_updated_at(old(self).sessions@, final(self).sessions@, p, session_id)
                &&& spec_same_but_pending(s, final(self).sessions@[p].1)
                &&& final(self).sessions@[p].1.pending@ == Seq::<RenderMessage>::empty()
            },
    {
        match self.find_session(session_id) {
            Some(i) => {
                let ghost before = self.sessions@;
                let mut entry = self.sessions.remove(i);
                let mut taken: Vec<RenderMessage> = Vec::new();
                core::mem::swap(&mut entry.1.pending, &mut taken);
                self.sessions.insert(i, entry);
                proof {
                    assert(self.sessions@ =~= before.update(i as int, entry));
                }
                Ok(taken)
            },
            None => Err(SessionError::SessionNotFound(session_id)),
        }
    }

    /// Destroys every session of one engine.
    pub fn destroy_engine_streams(&mut self, engine_id: i64)
        requires
            old(self).wf(),
        ensures
            final(self).wf(),
            final(self).session_counter == old(self).session_counter,
            forall|j: int|
                0 <= j < final(self).sessions@.len() ==> old(self).sessions@.contains(
                    #[trigger] final(self).sessions@[j],
                ) && final(self).sessions@[j].1.engine_handle != engine_id,
            forall|j: int|
                0 <= j < old(self).sessions@.len() && (#[trigger] old(
                    self,
                ).sessions@[j]).1.engine_handle != engine_id ==> final(self).sessions@.contains(
                    old(self).sessions@[j],
                ),
    {
        let ghost o_seq = self.sessions@;
        let mut rest: Vec<(i64, SessionState)> = Vec::new();
        core::mem::swap(&mut self.sessions, &mut rest);
        proof {
            assert(rest@ =~= o_seq.subrange(0, o_seq.len() as int));
        }
        while rest.len() > 0
            invariant
                self.session_counter == old(self).session_counter,
                rest@.len() <= o_seq.len(),
                rest@ == o_seq.subrange(o_seq.len() - rest@.len(), o_seq.len() as int),
                forall|j: int|
                    0 <= j < self.sessions@.len() ==> o_seq.contains(
                        #[trigger] self.sessions@[j],
                    ) && self.sessions@[j].1.engine_handle != engine_id,
                forall|j: int|
                    0 <= j < o_seq.len() - rest@.len() && (#[trigger] o_seq[j]).1.engine_handle
                        != engine_id ==> self.sessions@.contains(o_seq[j]),
                forall|i: int, j: int|
                    0 <= i < j < self.sessions@.len() ==> (#[trigger] self.sessions@[i]).0 != (
                    #[trigger] self.sessions@[j]).0,
                forall|i: int|
                    0 <= i < self.sessions@.len() ==> (#[trigger] self.sessions@[i]).1.wf(),
                forall|i: int, j: int|
                    0 <= i < j < o_seq.len() ==> (#[trigger] o_seq[i]).0 != (
                    #[trigger] o_seq[j]).0,
                forall|i: int| 0 <= i < o_seq.len() ==> (#[trigger] o_seq[i]).1.wf(),
                forall|i: int|
                    0 <= i < self.sessions@.len() ==> exists|j: int|
                        0 <= j < o_seq.len() - rest@.len() && (#[trigger] self.sessions@[i])
                            == o_seq[j],
            decreases rest@.len(),
        {
            let ghost p = o_seq.len() - rest@.len();
            let ghost kept_before = self.sessions@;
            let entry = rest.remove(0);
            proof {
                assert(entry == o_seq[p]);
                assert(rest@ =~= o_seq.subrange(p + 1, o_seq.len() as int));
            }
            if entry.1.engine_handle != engine_id {
                self.sessions.push(entry);
                proof {
                    assert(o_seq.contains(entry)) by {
                        assert(o_seq[p] == entry);
                    }
                    assert forall|i: int, j: int|
                        0 <= i < j < self.sessions@.len() implies (#[trigger] self.sessions@[i]).0
                        != (#[trigger] self.sessions@[j]).0 by {
                        if j == self.sessions@.len() - 1 {
                            let w = choose|w: int|
                                0 <= w < p && (#[trigger] kept_before[i]) == o_seq[w];
                            assert(o_seq[w].0 != o_seq[p].0);
                        }
                    }
                    assert forall|i: int|
                        0 <= i < self.sessions@.len() implies exists|j: int|
                            0 <= j < p + 1 && (#[trigger] self.sessions@[i]) == o_seq[j] by {
                        if i < self.sessions@.len() - 1 {
                            let w = choose|w: int|
                                0 <= w < p && (#[trigger] kept_before[i]) == o_seq[w];
                            assert(self.sessions@[i] == o_seq[w]);
                        } else {
                            assert(self.sessions@[i] == o_seq[p]);
                        }
                    }
                    assert forall|j: int|
                        0 <= j < p + 1 && (#[trigger] o_seq[j]).1.engine_handle
                            != engine_id implies self.sessions@.contains(o_seq[j]) by {
                        if j < p {
                            assert(kept_before.contains(o_seq[j]));
                            let w = choose|w: int|
                                0 <= w < kept_before.len() && kept_before[w] == o_seq[j];
                            assert(self.sessions@[w] == o_seq[j]);
                        } else {
                            assert(self.sessions@[self.sessions@.len() - 1] == o_seq[p]);
                        }
                    }
                }
            } else {
                proof {
                    assert forall|j: int|
                        0 <= j < p + 1 && (#[trigger] o_seq[j]).1.engine_handle
                            != engine_id implies self.sessions@.contains(o_seq[j]) by {
                        if j < p {
                            assert(kept_before.contains(o_seq[j]));
                        }
                    }
                }
            }
        }
    }
}

} // verus!
