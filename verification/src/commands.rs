//! The commands that the manager takes.

use vstd::prelude::*;

use crate::ids::WindowId;
use crate::layout::{Direction, LayoutMode};

verus! {

/// What commands carry that this library only hands on: measures, settings and
/// the words of the layout.
pub trait Vocabulary {
    /// A measure, such as a width in points.
    type Number;

    /// The value of a setting.
    type Value;

    type ResizeOrientation;

    type RotateDegrees;

    type MirrorAxis;

    type WorkspaceSelector;

    type RestoreScope;

    type RestoreSource;
}

#[derive(Clone, Copy, Debug, PartialEq, Eq, Structural)]
pub enum FloatingWindowSizePreset {
    Smart,
}

pub enum FloatingWindowSize<N> {
    Dimensions { w: N, h: N },
    Preset(FloatingWindowSizePreset),
}

pub struct ToggleWindowFloatingOptions<N> {
    pub center: bool,
    pub size: Option<FloatingWindowSize<N>>,
}

/// Commands that the layout carries out.
#[allow(inconsistent_fields)]
pub enum LayoutCommand<V: Vocabulary> {
    NextWindow,
    PrevWindow,
    MoveFocus(Direction),
    Ascend,
    Descend,
    MoveNode(Direction),
    JoinWindow(Direction),
    ConsumeOrExpelWindow(Direction),
    ToggleStack,
    ToggleOrientation,
    /// Reset every split in the active workspace to an even share.
    Balance,
    Rotate(V::RotateDegrees),
    Mirror(V::MirrorAxis),
    UnjoinWindows,
    ToggleFocusFloating,
    ToggleWindowFloating,
    ToggleWindowFloatingWithOptions(ToggleWindowFloatingOptions<V::Number>),
    ToggleFullscreen,
    ToggleFullscreenWithinGaps,
    ResizeWindowGrow(V::ResizeOrientation),
    ResizeWindowShrink(V::ResizeOrientation),
    ResizeWindowBy { amount: V::Number },
    ScrollStrip { delta: V::Number },
    SnapStrip,
    CenterSelection,
    NextWorkspace(Option<bool>),
    PrevWorkspace(Option<bool>),
    SwitchToWorkspace(usize),
    MoveWindowToWorkspace {
        workspace: V::WorkspaceSelector,
        follow: bool,
        window_id: Option<u32>,
    },
    SetWorkspaceLayout { workspace: Option<usize>, mode: LayoutMode },
    /// Cycle the active workspace through these layout modes. Two make a toggle.
    ToggleWorkspaceLayout(Vec<LayoutMode>),
    CreateWorkspace,
    DestroyWorkspace,
    SwitchToLastWorkspace,
    SwapWindows(WindowId, WindowId),
    AdjustMasterRatio(V::Number),
    AdjustMasterCount { delta: i32 },
    PromoteToMaster,
    SwapMasterStack,
}

/// Which display a command is for.
#[derive(Clone, Debug)]
pub enum DisplaySelector {
    Direction(Direction),
    /// By its place among the displays, from left to right.
    Index(usize),
    Uuid(String),
}

/// Commands that the manager itself carries out.
#[allow(inconsistent_fields)]
pub enum ReactorCommand<V: Vocabulary> {
    Debug,
    /// Start recording a trace to a path, or stop.
    RecordTrace { path: Option<String> },
    /// Write what was seen in the last minutes to a file.
    DumpTrace { path: String },
    Serialize,
    SaveLayout { path: String },
    /// Save the layout without a word: nobody asked for it.
    AutosaveLayout { path: String },
    SaveAndExit,
    RestoreLayout { path: String, scope: V::RestoreScope, source: V::RestoreSource },
    SwitchSpace(Direction),
    /// Switch to a desktop by its position on the active display, from one.
    SwitchToSpace(usize),
    /// Move the focused window to a desktop by its position on the active
    /// display, from one.
    MoveWindowToSpace { index: usize, follow: bool },
    CreateSpace,
    DestroySpace,
    /// Put the layout of the active desktop back to what it was when a display
    /// last departed.
    RestoreDepartureLayout,
    ToggleSpaceActivated,
    FocusWindow { window_id: WindowId, window_server_id: Option<u32> },
    ShowMissionControlAll,
    ShowMissionControlCurrent,
    DismissMissionControl,
    MoveMouseToDisplay(DisplaySelector),
    FocusDisplay(DisplaySelector),
    CloseWindow { window_server_id: Option<u32> },
    MoveWindowToDisplay { selector: DisplaySelector, window_id: Option<u32> },
    /// Move the active workspace to another display: its windows move into the
    /// workspace there at the same place, which becomes active.
    MoveWorkspaceToDisplay {
        selector: DisplaySelector,
        /// Go on from the opposite edge where there is no display further on.
        wrap_around: bool,
    },
}

#[derive(Clone, Copy, Debug, PartialEq, Eq, Structural)]
pub enum MetricsCommand {
    ShowTiming,
}

/// Commands that change or read the settings.
pub enum ConfigCommand<V: Vocabulary> {
    SetAnimate(bool),
    SetAnimationDuration(V::Number),
    SetAnimationFps(V::Number),
    SetAnimationEasing(AnimationEasing),
    SetMouseFollowsFocus(bool),
    SetMouseHidesOnFocus(bool),
    SetFocusFollowsMouse(bool),
    SetStackOffset(V::Number),
    SetOuterGaps { top: V::Number, left: V::Number, bottom: V::Number, right: V::Number },
    SetInnerGaps { horizontal: V::Number, vertical: V::Number },
    SetWorkspaceNames(Vec<String>),
    SetValue { key: String, value: V::Value },
    GetConfig,
    SaveConfig,
    ReloadConfig,
}

#[derive(Clone, Copy, Debug, PartialEq, Eq, Structural)]
pub enum AnimationEasing {
    EaseInOut,
    Linear,
    EaseInSine,
    EaseOutSine,
    EaseInOutSine,
    EaseInQuad,
    EaseOutQuad,
    EaseInOutQuad,
    EaseInCubic,
    EaseOutCubic,
    EaseInOutCubic,
    EaseInQuart,
    EaseOutQuart,
    EaseInOutQuart,
    EaseInQuint,
    EaseOutQuint,
    EaseInOutQuint,
    EaseInExpo,
    EaseOutExpo,
    EaseInOutExpo,
    EaseInCirc,
    EaseOutCirc,
    EaseInOutCirc,
}

impl Default for AnimationEasing {
    fn default() -> (easing: AnimationEasing)
        ensures
            easing == AnimationEasing::EaseInOut,
    {
        AnimationEasing::EaseInOut
    }
}

/// A command, by who carries it out.
pub enum RiftCommand<V: Vocabulary> {
    Layout(LayoutCommand<V>),
    Metrics(MetricsCommand),
    Reactor(ReactorCommand<V>),
    Config(ConfigCommand<V>),
}

/// What the reactor is told to do.
pub enum Command<V: Vocabulary> {
    Layout(LayoutCommand<V>),
    Metrics(MetricsCommand),
    Reactor(ReactorCommand<V>),
}

/// A command in the older form: everything but settings is for the reactor.
pub enum LegacyCommand<V: Vocabulary> {
    Reactor(LegacyReactorCommand<V>),
    Config(ConfigCommand<V>),
}

/// What the older form hands to the reactor.
pub enum LegacyReactorCommand<V: Vocabulary> {
    Layout(LayoutCommand<V>),
    Metrics(MetricsCommand),
    Reactor(ReactorCommand<V>),
}

impl<V: Vocabulary> RiftCommand<V> {
    /// The command that one in the older form stands for.
    pub fn from_legacy(command: LegacyCommand<V>) -> (this: RiftCommand<V>)
        ensures
            this == match command {
                LegacyCommand::Config(command) => RiftCommand::Config(command),
                LegacyCommand::Reactor(command) => match command {
                    LegacyReactorCommand::Layout(command) => RiftCommand::Layout(command),
                    LegacyReactorCommand::Metrics(command) => RiftCommand::Metrics(command),
                    LegacyReactorCommand::Reactor(command) => RiftCommand::Reactor(command),
                },
            },
    {
        match command {
            LegacyCommand::Config(command) => RiftCommand::Config(command),
            LegacyCommand::Reactor(command) => match command {
                LegacyReactorCommand::Layout(command) => RiftCommand::Layout(command),
                LegacyReactorCommand::Metrics(command) => RiftCommand::Metrics(command),
                LegacyReactorCommand::Reactor(command) => RiftCommand::Reactor(command),
            },
        }
    }
}

impl<V: Vocabulary> LayoutCommand<V> {
    /// The command acts on the focused window rather than on the workspace or
    /// the tree as a whole.
    pub open spec fn is_for_focused(&self) -> bool {
        ||| self is MoveNode
        ||| self is JoinWindow
        ||| self is ConsumeOrExpelWindow
        ||| self is UnjoinWindows
        ||| self is ToggleWindowFloating
        ||| self is ToggleWindowFloatingWithOptions
        ||| self is ToggleFullscreen
        ||| self is ToggleFullscreenWithinGaps
        ||| self is ResizeWindowGrow
        ||| self is ResizeWindowShrink
        ||| self is ResizeWindowBy
        ||| self is CenterSelection
        ||| self is MoveWindowToWorkspace
        ||| self is PromoteToMaster
    }

    /// Whether the command acts on the focused window.
    pub fn targets_focused_window(&self) -> (targets: bool)
        ensures
            targets == self.is_for_focused(),
    {
        matches!(
            self,
            LayoutCommand::MoveNode(_) | LayoutCommand::JoinWindow(_)
                | LayoutCommand::ConsumeOrExpelWindow(_) | LayoutCommand::UnjoinWindows
                | LayoutCommand::ToggleWindowFloating
                | LayoutCommand::ToggleWindowFloatingWithOptions(_) | LayoutCommand::ToggleFullscreen
                | LayoutCommand::ToggleFullscreenWithinGaps | LayoutCommand::ResizeWindowGrow(_)
                | LayoutCommand::ResizeWindowShrink(_) | LayoutCommand::ResizeWindowBy { .. }
                | LayoutCommand::CenterSelection | LayoutCommand::MoveWindowToWorkspace { .. }
                | LayoutCommand::PromoteToMaster
        )
    }
}

/// Commands on the workspace, the tree as a whole, focus or other windows are not for
/// the focused one; those that move, join, float, fill, resize, centre, send or promote
/// a window are.
pub proof fn which_commands_are_for_the_focused_window<V: Vocabulary>(command: LayoutCommand<V>)
    ensures
        command is NextWindow || command is PrevWindow || command is MoveFocus || command is Ascend
            || command is Descend || command is ToggleStack || command is ToggleOrientation
            || command is Balance || command is Rotate || command is Mirror
            || command is ToggleFocusFloating || command is ScrollStrip || command is SnapStrip
            || command is NextWorkspace || command is PrevWorkspace || command is SwitchToWorkspace
            || command is SetWorkspaceLayout || command is ToggleWorkspaceLayout
            || command is CreateWorkspace || command is DestroyWorkspace
            || command is SwitchToLastWorkspace || command is SwapWindows
            || command is AdjustMasterRatio || command is AdjustMasterCount
            || command is SwapMasterStack ==> !command.is_for_focused(),
        command is MoveNode || command is JoinWindow || command is ConsumeOrExpelWindow
            || command is UnjoinWindows || command is ToggleWindowFloating
            || command is ToggleWindowFloatingWithOptions || command is ToggleFullscreen
            || command is ToggleFullscreenWithinGaps || command is ResizeWindowGrow
            || command is ResizeWindowShrink || command is ResizeWindowBy
            || command is CenterSelection || command is MoveWindowToWorkspace
            || command is PromoteToMaster ==> command.is_for_focused(),
{
}

} // verus!
