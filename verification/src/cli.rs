//! The arguments of the two commands, as plain data. Parsing a command line
//! into them is the caller's business.

use vstd::prelude::*;
use std::path::PathBuf;

verus! {

/// `std::path::PathBuf`, made known to the verifier so that the argument
/// types below can hold paths. Nothing is claimed of it: the library carries
/// paths and never looks inside one.
#[verifier::external_type_specification]
#[verifier::external_body]
pub struct ExPathBuf(PathBuf);

/// What the `hide` command needs.
#[derive(Debug)]
pub struct HideArgs {
    /// The image that serves as the carrier.
    pub image: PathBuf,
    /// The file whose content is hidden.
    pub text: PathBuf,
    /// Where the image with the hidden content is written.
    pub dest: PathBuf,
}

/// What the `recover` command needs.
#[derive(Debug)]
pub struct RecoverArgs {
    /// The image that holds hidden content.
    pub image: PathBuf,
    /// Where the recovered content is written.
    pub text: PathBuf,
}

/// The commands: hide a file's content in an image, or recover it.
#[derive(Debug)]
pub enum Commands {
    Hide(HideArgs),
    Recover(RecoverArgs),
}

/// A whole invocation.
#[derive(Debug)]
pub struct Cli {
    pub command: Commands,
}

} // verus!
