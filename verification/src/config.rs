//! Run-time configuration: data source, UI mode, frame format and console policy.

use vstd::prelude::*;

verus! {

/// Where measurements come from.
#[derive(Debug, Clone, Copy, PartialEq, Eq)]
pub enum DataSource {
    Sim,
    Actual,
}

/// How measurements are shown.
#[derive(Debug, Clone, Copy, PartialEq, Eq)]
pub enum UiMode {
    Cli,
    Gui,
}

/// Console output policy.
#[derive(Debug, Clone, Copy, PartialEq, Eq)]
pub enum ConsoleMode {
    Silent,
    Verbose,
}

/// Transport format of the frames: text lines or raw bits.
#[derive(Debug, Clone, Copy, PartialEq, Eq)]
pub enum FrameFormat {
    Str,
    Bin,
}

/// The simulator mode chosen on the command line.
///
/// A fixed value is kept as the text given, which is a valid floating-point
/// literal; the application converts it to a number.
#[derive(Debug, Clone, PartialEq, Eq)]
pub enum SimModeArg {
    Random,
    Seed(u64),
    Fixed(String),
    SinWave,
}

/// The application configuration derived from the command line.
#[derive(Debug, Clone)]
pub struct AppConfig {
    pub source: DataSource,
    pub ui: UiMode,
    pub format: FrameFormat,
    pub console_mode: ConsoleMode,
    pub sim_mode: SimModeArg,
}

/// The console policy of a UI mode: the GUI keeps the console silent.
pub open spec fn console_mode_for(ui: UiMode) -> ConsoleMode {
    match ui {
        UiMode::Gui => ConsoleMode::Silent,
        UiMode::Cli => ConsoleMode::Verbose,
    }
}

impl AppConfig {
    /// The configuration `build` gives.
    pub open spec fn spec_build(source: DataSource, ui: UiMode, is_bin: bool, sim_mode: SimModeArg) -> AppConfig {
        AppConfig {
            source,
            ui,
            format: if is_bin {
                FrameFormat::Bin
            } else {
                FrameFormat::Str
            },
            console_mode: console_mode_for(ui),
            sim_mode,
        }
    }

    /// Builds the configuration from the parsed options.
    pub fn build(source: DataSource, ui: UiMode, is_bin: bool, sim_mode: SimModeArg) -> (r: Self)
        ensures
            r.source == source,
            r.ui == ui,
            r.format == (if is_bin {
                FrameFormat::Bin
            } else {
                FrameFormat::Str
            }),
            r.console_mode == console_mode_for(ui),
            r.sim_mode == sim_mode,
            r == Self::spec_build(source, ui, is_bin, sim_mode),
    {
        let format = if is_bin {
            FrameFormat::Bin
        } else {
            FrameFormat::Str
        };
        let console_mode = match ui {
            UiMode::Gui => ConsoleMode::Silent,
            UiMode::Cli => ConsoleMode::Verbose,
        };
        Self { source, ui, format, console_mode, sim_mode }
    }
}

/// Connection details shown by the GUI.
#[derive(Debug, Clone, Copy, PartialEq, Eq)]
pub struct ConnectionInfo {
    pub mode: FrameFormat,
}

impl ConnectionInfo {
    pub fn new(mode: FrameFormat) -> (r: Self)
        ensures
            r.mode == mode,
    {
        Self { mode }
    }
}

} // verus!
