//! Removes the silences from recordings.
//!
//! The library decides and computes; running ffprobe and ffmpeg, files, windows and the clock of
//! an export are left to the application. An export goes through these modules:
//!
//! - [`commands`] turns a request into a task and the end of an export into an answer;
//! - [`export`] leads through the stages of an export, from event to event;
//! - [`probe`] reads what ffprobe reports of a recording;
//! - [`segments`] finds the stretches of speech between the silences;
//! - [`batch`], [`ffmpeg`] and [`single_pass`] split them into batches and write the commands and
//!   filter graphs that cut them out and merge them;
//! - [`completion`] waits for the batches, and [`cancel`] looks whether to stop;
//! - [`progress`] and [`result`] make what is shown while an export runs and after it;
//! - [`paths`] names the files.
//!
//! Times are IEEE 754 doubles. They are held as bit patterns in [`double`], with correctly rounded
//! arithmetic on top of [`rounding`], and are shown by [`timecode`] and [`text`].
//!
//! [`laws`] states, of their arguments and results alone, what the operations of all these do.

pub mod batch;
pub mod cancel;
pub mod commands;
pub mod completion;
pub mod double;
pub mod export;
pub mod ffmpeg;
pub mod laws;
pub mod paths;
pub mod probe;
pub mod progress;
pub mod result;
pub mod rounding;
pub mod segments;
pub mod single_pass;
pub mod text;
pub mod timecode;
