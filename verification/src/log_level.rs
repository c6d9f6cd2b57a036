//! Log levels: which records the logger shows and in which color.
use vstd::prelude::*;

verus! {

/// Severity of a log record, most severe first.
#[derive(Debug, Clone, Copy, PartialEq, Eq, Structural)]
pub enum LogLevel {
    Error,
    Warn,
    Info,
    Debug,
    Trace,
}

impl LogLevel {
    /// Position of the level in severity order: `Error` is 1, `Trace` is 5.
    pub open spec fn rank(self) -> int {
        match self {
            LogLevel::Error => 1,
            LogLevel::Warn => 2,
            LogLevel::Info => 3,
            LogLevel::Debug => 4,
            LogLevel::Trace => 5,
        }
    }

    /// The logger shows records at `Info` or more severe.
    pub open spec fn shown(self) -> bool {
        self.rank() <= LogLevel::Info.rank()
    }

    /// Whether the logger shows records of this level.
    pub fn is_enabled(&self) -> (enabled: bool)
        ensures
            enabled == self.shown(),
    {
        match self {
            LogLevel::Error | LogLevel::Warn | LogLevel::Info => true,
            LogLevel::Debug | LogLevel::Trace => false,
        }
    }
}

/// A 24-bit color.
#[derive(Debug, Clone, Copy, PartialEq, Eq, Structural)]
pub struct Color {
    pub red: u8,
    pub green: u8,
    pub blue: u8,
}

/// The foreground colors of log records, by level.
#[derive(Debug, Clone, Copy, PartialEq, Eq, Structural)]
pub struct Palette {
    pub error: Color,
    pub warn: Color,
    pub info: Color,
    pub debug: Color,
}

impl Palette {
    /// The color of a level: debug and trace records share one color.
    pub open spec fn spec_color_for(self, level: LogLevel) -> Color {
        match level {
            LogLevel::Error => self.error,
            LogLevel::Warn => self.warn,
            LogLevel::Info => self.info,
            LogLevel::Debug | LogLevel::Trace => self.debug,
        }
    }

    /// The foreground color of records of `level`.
    pub fn color_for(&self, level: LogLevel) -> (color: Color)
        ensures
            color == self.spec_color_for(level),
    {
        match level {
            LogLevel::Error => self.error,
            LogLevel::Warn => self.warn,
            LogLevel::Info => self.info,
            LogLevel::Debug | LogLevel::Trace => self.debug,
        }
    }

    /// The (foreground, background) colors a record of `level` is written in,
    /// given the writer's current colors: the level's color on the current background.
    pub fn record_colors(&self, level: LogLevel, current: (Color, Color)) -> (colors: (Color, Color))
        ensures
            colors == (self.spec_color_for(level), current.1),
    {
        (self.color_for(level), current.1)
    }
}

/// Levels are shown down to a threshold: a level at least as severe as a
/// shown level is shown, and a level less severe than a hidden one is hidden.
pub proof fn lemma_shown_levels_are_a_threshold(a: LogLevel, b: LogLevel)
    requires
        a.rank() <= b.rank(),
    ensures
        b.shown() ==> a.shown(),
        !a.shown() ==> !b.shown(),
{
}

/// Which records are shown, level by level: errors, warnings and
/// informational records are shown; debug and trace records are not.
pub proof fn lemma_shown_levels()
    ensures
        LogLevel::Error.shown(),
        LogLevel::Warn.shown(),
        LogLevel::Info.shown(),
        !LogLevel::Debug.shown(),
        !LogLevel::Trace.shown(),
{
}

/// Record colors, stated over the palette's fields: errors, warnings and
/// informational records take the palette's `error`, `warn` and `info` colors;
/// debug and trace records both take its `debug` color.
pub proof fn lemma_level_colors(palette: Palette)
    ensures
        palette.spec_color_for(LogLevel::Error) == palette.error,
        palette.spec_color_for(LogLevel::Warn) == palette.warn,
        palette.spec_color_for(LogLevel::Info) == palette.info,
        palette.spec_color_for(LogLevel::Debug) == palette.debug,
        palette.spec_color_for(LogLevel::Trace) == palette.debug,
{
}

} // verus!
