//! The render loop's control logic: a state machine over start, stop, pause
//! and frame commands, driven at a configurable frame rate.  The embedding
//! owns the channel and the timer and performs the drawing; every decision —
//! what a command changes and when a frame is rendered — is taken here.

use crate::session::MapSize;
use vstd::prelude::*;

verus! {

/// Commands that can be sent to the render loop.
#[derive(Clone, Copy, PartialEq, Eq, Structural, Debug)]
pub enum RenderCommand {
    /// Start the render loop.
    Start,
    /// Stop the render loop.
    Stop,
    /// Pause rendering but keep the loop alive.
    Pause,
    /// Resume rendering.
    Resume,
    /// Change the frame-rate setting.
    SetFps(u32),
    /// Resize the rendering target.
    Resize(MapSize),
    /// Render a single frame now.
    RequestFrame,
}

/// Current state of the render loop.
#[derive(Clone, Copy, PartialEq, Eq, Structural, Debug)]
pub enum RenderState {
    /// Not running; the task has exited or never started.
    Stopped,
    /// Rendering frames at the configured rate.
    Running,
    /// Alive but not rendering.
    Paused,
}

/// Error of a render-loop operation.
#[derive(Clone, PartialEq, Eq, Debug)]
pub enum RenderLoopError {
    /// The render loop is not running.
    NotRunning,
    /// The frame rate is zero or beyond the supported maximum.
    InvalidFps(u32),
    /// The command channel rejected a send.
    ChannelSendError(String),
    /// The renderer failed.
    RendererError(String),
}

/// What the render task does after taking one command or one timer tick.
#[derive(Clone, Copy, PartialEq, Eq, Structural, Debug)]
pub enum RenderAction {
    /// Keep waiting for the next command or tick.
    Continue,
    /// Draw one frame, then keep waiting.
    RenderFrame,
    /// Resize the target to the carried size, then keep waiting.
    ResizeTarget(MapSize),
    /// Re-arm the frame timer for the new rate, then keep waiting.
    RearmTimer(u32),
    /// Leave the loop.
    Exit,
}

/// The highest accepted frame rate.
pub const MAX_FPS: u32 = 120;

/// Validates a requested frame rate: zero and anything beyond the maximum
/// are rejected.
pub fn validate_fps(fps: u32) -> (r: Result<(), RenderLoopError>)
    ensures
        r is Ok <==> 1 <= fps <= MAX_FPS,
        r is Err ==> r == Err::<(), RenderLoopError>(RenderLoopError::InvalidFps(fps)),
{
    if fps == 0 || fps > MAX_FPS {
        Err(RenderLoopError::InvalidFps(fps))
    } else {
        Ok(())
    }
}

/// The decision core of the render loop: its state and frame rate.  The
/// embedding's task feeds it commands and timer ticks and performs the
/// actions it hands back.
pub struct RenderLoopCore {
    /// Whether the loop is stopped, running or paused.
    pub state: RenderState,
    /// Target frame rate, in frames per second.
    pub fps: u32,
}

impl RenderLoopCore {
    /// A loop that has not started yet, at the given frame rate.
    pub fn new(fps: u32) -> (r: RenderLoopCore)
        ensures
            r.state == RenderState::Stopped,
            r.fps == fps,
    {
        RenderLoopCore { state: RenderState::Stopped, fps }
    }

    /// Takes one command: updates the state and frame rate and says what the
    /// task must do.  A frame request is honoured unless the loop is
    /// stopped; a stop command exits the task.
    pub fn handle_command(&mut self, cmd: &RenderCommand) -> (r: RenderAction)
        ensures
            match *cmd {
                RenderCommand::Start => *final(self) == (RenderLoopCore {
                    state: RenderState::Running,
                    ..*old(self)
                }) && r == RenderAction::Continue,
                RenderCommand::Stop => *final(self) == (RenderLoopCore {
                    state: RenderState::Stopped,
                    ..*old(self)
                }) && r == RenderAction::Exit,
                RenderCommand::Pause => *final(self) == (RenderLoopCore {
                    state: RenderState::Paused,
                    ..*old(self)
                }) && r == RenderAction::Continue,
                RenderCommand::Resume => *final(self) == (RenderLoopCore {
                    state: RenderState::Running,
                    ..*old(self)
                }) && r == RenderAction::Continue,
                RenderCommand::SetFps(fps) => *final(self) == (RenderLoopCore {
                    fps,
                    ..*old(self)
                }) && r == RenderAction::RearmTimer(fps),
                RenderCommand::Resize(size) => *final(self) == *old(self) && r
                    == RenderAction::ResizeTarget(size),
                RenderCommand::RequestFrame => *final(self) == *old(self) && r == (if old(self)
                    .state is Stopped {
                    RenderAction::Continue
                } else {
                    RenderAction::RenderFrame
                }),
            },
    {
        match cmd {
            RenderCommand::Start => {
                self.state = RenderState::Running;
                RenderAction::Continue
            },
            RenderCommand::Stop => {
                self.state = RenderState::Stopped;
                RenderAction::Exit
            },
            RenderCommand::Pause => {
                self.state = RenderState::Paused;
                RenderAction::Continue
            },
            RenderCommand::Resume => {
                self.state = RenderState::Running;
                RenderAction::Continue
            },
            RenderCommand::SetFps(fps) => {
                self.fps = *fps;
                RenderAction::RearmTimer(*fps)
            },
            RenderCommand::Resize(size) => RenderAction::ResizeTarget(*size),
            RenderCommand::RequestFrame => {
                match self.state {
                    RenderState::Stopped => RenderAction::Continue,
                    _ => RenderAction::RenderFrame,
                }
            },
        }
    }

    /// Whether a timer tick renders a frame: only while running.
    pub fn on_tick(&self) -> (r: bool)
        ensures
            r == (self.state is Running),
    {
        match self.state {
            RenderState::Running => true,
            _ => false,
        }
    }
}

} // verus!
