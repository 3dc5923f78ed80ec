//! Storage and serving of labeled chess-position training data.
//!
//! The crate covers three subsystems: a fixed-width binary codec that packs
//! a position, its game outcome and an optional evaluation into a 32-byte
//! record and restores it losslessly; an external-memory shuffle engine that
//! randomizes record order with bounded memory; and a batch loader that
//! turns a stream of records into fixed-capacity batches of sparse feature
//! indices and training targets.

pub mod batch;
pub mod chess;
pub mod codec;
pub mod feature;
pub mod loader;
pub mod rng;
pub mod shuffle;
pub mod rules;

pub use batch::{Batch, EvalTarget, OutcomeTarget};
pub use chess::{CastlingRights, Color, Outcome, Piece, Position, PositionV, Sample, SampleV};
pub use codec::{PackError, PackedPieces, PackedSample, UnpackError};
pub use feature::{feature, MAX_ACTIVE_FEATURES};
pub use loader::{BufferedLoader, BUFFER_SIZE};
pub use shuffle::SUBFILE_SIZE;
