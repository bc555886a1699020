//! Sessions, the registry, the render-loop state machine and the texture
//! pixel store.

use galileo_tiles::render_loop::{
    validate_fps, RenderAction, RenderCommand, RenderLoopCore, RenderLoopError, RenderState,
};
use galileo_tiles::session::{
    pan_viewport, scale_zoom, GalileoMapSession, LayerConfig, MapPosition, MapSize, MapViewport,
    PanEvent, PanEventType, RenderConfig, RenderMessage, ScaleEvent, SessionError, SessionRegistry,
    SessionState, TouchEvent, TouchEventType, MAX_ZOOM_MILLI, MIN_ZOOM_MILLI,
    POSITION_LIMIT_MICRO,
};
use galileo_tiles::texture::{TextureHandle, TexturePixelProvider};

fn size(w: u32, h: u32) -> MapSize {
    MapSize { width: w, height: h }
}

#[test]
fn session_ids_count_up() {
    let mut reg = SessionRegistry::new();
    assert_eq!(reg.create_new_session(), 1);
    assert_eq!(reg.create_new_session(), 2);
    assert_eq!(reg.create_new_session(), 3);
}

#[test]
fn register_lookup_and_destroy() {
    let mut reg = SessionRegistry::new();
    let id = reg.create_new_session();
    reg.register_session(id, SessionState::new(77, id * 1000, size(800, 600)));
    assert!(reg.get_session_viewport(id).is_ok());
    reg.destroy_session(id);
    assert_eq!(
        reg.get_session_viewport(id),
        Err(SessionError::SessionNotFound(id))
    );
    // destroying an unknown session is harmless
    reg.destroy_session(999);
}

#[test]
fn unknown_session_is_an_error_everywhere() {
    let mut reg = SessionRegistry::new();
    let missing = 42;
    assert_eq!(
        reg.trigger_map_update(missing),
        Err(SessionError::SessionNotFound(missing))
    );
    assert_eq!(
        reg.resize_session_size(missing, size(1, 1)),
        Err(SessionError::SessionNotFound(missing))
    );
    let touch = TouchEvent { event_type: TouchEventType::Down, x: 1, y: 2 };
    assert_eq!(
        reg.handle_session_touch_event(missing, touch),
        Err(SessionError::SessionNotFound(missing))
    );
}

#[test]
fn pan_moves_the_centre_against_the_drag() {
    let mut reg = SessionRegistry::new();
    let id = reg.create_new_session();
    reg.register_session(id, SessionState::new(1, 0, size(100, 100)));
    let pan = PanEvent { event_type: PanEventType::Update, delta_x: 30, delta_y: -20 };
    reg.handle_session_pan_event(id, pan).expect("session exists");
    let v = reg.get_session_viewport(id).unwrap();
    assert_eq!(v.center.longitude_micro, 30 * 100);
    assert_eq!(v.center.latitude_micro, 20 * 100);
    // the start phase moves nothing but still queues a redraw
    let start = PanEvent { event_type: PanEventType::Start, delta_x: 500, delta_y: 500 };
    reg.handle_session_pan_event(id, start).expect("session exists");
    let v2 = reg.get_session_viewport(id).unwrap();
    assert_eq!(v2.center, v.center);
    let msgs = reg.take_pending(id).unwrap();
    assert_eq!(msgs, vec![RenderMessage::UpdateMap, RenderMessage::UpdateMap]);
}

#[test]
fn scale_divides_the_resolution_and_clamps() {
    // a two-fold pinch halves the resolution
    assert_eq!(scale_zoom(1000, 2000), 500);
    // a half pinch doubles it
    assert_eq!(scale_zoom(1000, 500), 2000);
    // the factor is clamped to a tenth through tenfold
    assert_eq!(scale_zoom(1000, 1), 10_000);
    assert_eq!(scale_zoom(1000, 1_000_000), 100);
    // the resolution itself stays within range
    assert_eq!(scale_zoom(MIN_ZOOM_MILLI, 10_000), MIN_ZOOM_MILLI);
    assert_eq!(scale_zoom(MAX_ZOOM_MILLI, 100), MAX_ZOOM_MILLI);

    let mut reg = SessionRegistry::new();
    let id = reg.create_new_session();
    reg.register_session(id, SessionState::new(1, 0, size(100, 100)));
    let pinch = ScaleEvent { scale_milli: 2000, focal_x: 0, focal_y: 0 };
    reg.handle_session_scale_event(id, pinch).expect("session exists");
    assert_eq!(reg.get_session_viewport(id).unwrap().zoom_milli, 500);
}

#[test]
fn viewport_set_and_get_round_trip_with_clamping() {
    let mut reg = SessionRegistry::new();
    let id = reg.create_new_session();
    reg.register_session(id, SessionState::new(1, 0, size(100, 100)));
    let wild = MapViewport {
        center: MapPosition {
            latitude_micro: POSITION_LIMIT_MICRO + 5,
            longitude_micro: -POSITION_LIMIT_MICRO - 5,
        },
        zoom_milli: 0,
        rotation_milli: 250,
    };
    reg.set_session_viewport(id, wild).expect("session exists");
    let v = reg.get_session_viewport(id).unwrap();
    assert_eq!(v.center.latitude_micro, POSITION_LIMIT_MICRO);
    assert_eq!(v.center.longitude_micro, -POSITION_LIMIT_MICRO);
    assert_eq!(v.zoom_milli, MIN_ZOOM_MILLI);
    assert_eq!(v.rotation_milli, 250);
}

#[test]
fn pan_clamps_at_the_position_limit() {
    let v = MapViewport {
        center: MapPosition { latitude_micro: POSITION_LIMIT_MICRO - 10, longitude_micro: 0 },
        zoom_milli: 1000,
        rotation_milli: 0,
    };
    let panned = pan_viewport(v, 0, -1000);
    assert_eq!(panned.center.latitude_micro, POSITION_LIMIT_MICRO);
}

#[test]
fn engine_teardown_removes_only_its_sessions() {
    let mut reg = SessionRegistry::new();
    let a = reg.create_new_session();
    let b = reg.create_new_session();
    let c = reg.create_new_session();
    reg.register_session(a, SessionState::new(10, 0, size(1, 1)));
    reg.register_session(b, SessionState::new(20, 0, size(1, 1)));
    reg.register_session(c, SessionState::new(10, 0, size(1, 1)));
    reg.destroy_engine_streams(10);
    assert!(reg.get_session_viewport(a).is_err());
    assert!(reg.get_session_viewport(b).is_ok());
    assert!(reg.get_session_viewport(c).is_err());
}

#[test]
fn queued_messages_come_out_in_order_once() {
    let mut reg = SessionRegistry::new();
    let id = reg.create_new_session();
    reg.register_session(id, SessionState::new(1, 0, size(1, 1)));
    reg.trigger_map_update(id).unwrap();
    reg.resize_session_size(id, size(32, 16)).unwrap();
    let msgs = reg.take_pending(id).unwrap();
    assert_eq!(
        msgs,
        vec![RenderMessage::UpdateMap, RenderMessage::Resize(size(32, 16))]
    );
    assert_eq!(reg.take_pending(id).unwrap(), Vec::new());
}

#[test]
fn layers_accumulate_in_order() {
    let mut reg = SessionRegistry::new();
    let id = reg.create_new_session();
    reg.register_session(id, SessionState::new(1, 0, size(1, 1)));
    reg.add_session_layer(id, LayerConfig::Osm).unwrap();
    reg.add_session_layer(
        id,
        LayerConfig::RasterTiles {
            url_template: "https://tiles.example.com/{z}/{x}/{y}.png".to_string(),
            attribution: None,
        },
    )
    .unwrap();
    assert_eq!(
        reg.add_session_layer(7777, LayerConfig::Osm),
        Err(SessionError::SessionNotFound(7777))
    );
}

#[test]
fn alive_flag_and_render_rate_limit() {
    let mut state = SessionState::new(1, 0, size(1, 1));
    assert!(state.is_alive());
    state.alive = false;
    assert!(!state.is_alive());
    state.mark_alive();
    assert!(state.is_alive());

    assert!(state.can_render(1000), "the first frame always renders");
    assert!(!state.can_render(1010), "frames closer than the interval are skipped");
    assert!(state.can_render(1016));
    assert!(!state.can_render(1017));
}

#[test]
fn binding_facade_keeps_a_clamped_viewport() {
    let mut s = GalileoMapSession::new(size(640, 480), RenderConfig { fps: 30 });
    let v = s.get_viewport();
    assert_eq!(v.center.latitude_micro, 0);
    assert_eq!(v.zoom_milli, 1000);
    s.set_viewport(MapViewport {
        center: MapPosition { latitude_micro: 5, longitude_micro: 6 },
        zoom_milli: MAX_ZOOM_MILLI + 1,
        rotation_milli: 0,
    });
    assert_eq!(s.get_viewport().zoom_milli, MAX_ZOOM_MILLI);
    assert_eq!(s.add_layer(LayerConfig::Osm), Ok(()));
    s.resize(size(10, 10));
    s.handle_touch_event(TouchEvent { event_type: TouchEventType::Up, x: 0, y: 0 });
}

#[test]
fn render_loop_follows_commands() {
    let mut core = RenderLoopCore::new(30);
    assert_eq!(core.state, RenderState::Stopped);
    assert!(!core.on_tick());
    // a frame request while stopped is ignored
    assert_eq!(core.handle_command(&RenderCommand::RequestFrame), RenderAction::Continue);
    assert_eq!(core.handle_command(&RenderCommand::Start), RenderAction::Continue);
    assert_eq!(core.state, RenderState::Running);
    assert!(core.on_tick());
    assert_eq!(core.handle_command(&RenderCommand::RequestFrame), RenderAction::RenderFrame);
    assert_eq!(core.handle_command(&RenderCommand::Pause), RenderAction::Continue);
    assert!(!core.on_tick());
    assert_eq!(core.handle_command(&RenderCommand::RequestFrame), RenderAction::RenderFrame);
    assert_eq!(
        core.handle_command(&RenderCommand::SetFps(60)),
        RenderAction::RearmTimer(60)
    );
    assert_eq!(core.fps, 60);
    assert_eq!(core.state, RenderState::Paused);
    assert_eq!(
        core.handle_command(&RenderCommand::Resize(size(3, 4))),
        RenderAction::ResizeTarget(size(3, 4))
    );
    assert_eq!(core.handle_command(&RenderCommand::Resume), RenderAction::Continue);
    assert!(core.on_tick());
    assert_eq!(core.handle_command(&RenderCommand::Stop), RenderAction::Exit);
    assert_eq!(core.state, RenderState::Stopped);
}

#[test]
fn fps_validation_bounds() {
    assert_eq!(validate_fps(0), Err(RenderLoopError::InvalidFps(0)));
    assert_eq!(validate_fps(121), Err(RenderLoopError::InvalidFps(121)));
    assert_eq!(validate_fps(1), Ok(()));
    assert_eq!(validate_fps(120), Ok(()));
}

#[test]
fn texture_pixel_store_sizes_and_updates() {
    let mut p = TexturePixelProvider::new(size(4, 2));
    assert_eq!(p.pixel_data.len(), 4 * 2 * 4);
    assert!(p.pixel_data.iter().all(|b| *b == 0));
    p.update_pixels(vec![7; 32]);
    assert_eq!(p.pixel_data, vec![7; 32]);
    p.resize(size(1, 1));
    assert_eq!(p.pixel_data, vec![0, 0, 0, 0]);
    assert_eq!(p.size, size(1, 1));
}

#[test]
fn texture_handle_is_a_placeholder() {
    let h = TextureHandle::new(64, 64);
    assert_eq!(h.get_texture_id(), 0);
    h.update_pixels(vec![1, 2, 3]);
    h.resize(32, 32);
    h.dispose();
}
