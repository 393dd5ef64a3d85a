use vstd::prelude::*;

verus! {

/// `std::path::PathBuf`, carried as given on the command line.
#[verifier::external_type_specification]
#[verifier::external_body]
pub struct ExPathBuf(std::path::PathBuf);

/// The command line: an optional 1-based device number and a command.
#[derive(Debug)]
pub struct Cli {
    pub device: Option<usize>,
    pub command: Command,
}

/// What the command line asks for.
#[derive(Debug)]
#[allow(inconsistent_fields)]
pub enum Command {
    Devices { json: bool },
    List { json: bool },
    Upload { path: std::path::PathBuf, format: RawFormat, title: Option<String> },
    UploadM3u { path: std::path::PathBuf, format: RawFormat, erase_first: bool, group: bool },
    UploadRaw { path: std::path::PathBuf, format: RawFormat, title: Option<String> },
    Convert { input: std::path::PathBuf, output: std::path::PathBuf, format: RawFormat },
    RenameDisc { title: String },
    RenameTrack { track: u16, title: String },
    DeleteTrack { track: u16 },
    Erase,
    Eject,
    Play,
    Pause,
    Stop,
    Next,
    Prev,
    Doctor,
}

/// The recording format named on the command line.
#[derive(Clone, Copy, Debug, PartialEq, Eq, Structural)]
pub enum RawFormat {
    Sp,
    Lp2,
    Lp105,
    Lp4,
}

} // verus!
