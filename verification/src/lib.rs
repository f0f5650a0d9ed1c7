//! SoundCheck's verified core: the logic of levelling and gridding a DJ library that works on
//! whole numbers and text. Meters and their badges, the analysis-settings digest, codecs by file
//! name, the natural order and the walk of dropped folders, the session's file ids, the
//! bookkeeping of batches and of results that arrive out of order, hops and chunks of streamed
//! audio, the confidence, verdict and octave rules of a grid, the skip, review and status rules of
//! a plan, genre and region hints, and the labels file of the evaluation. The floating-point
//! signal processing and all I/O live outside.
pub mod analysis;
pub mod audio;
pub mod batch;
pub mod beats;
pub mod cancel;
pub mod codec;
pub mod eval;
pub mod expand;
pub mod grid;
pub mod hops;
pub mod ipc;
pub mod meter;
pub mod natural;
pub mod octave;
pub mod order;
pub mod plan;
pub mod rank;
pub mod resample;
pub mod session;
pub mod settings;
pub mod testsig;
pub mod text;

pub use audio::AudioSpec;
pub use cancel::CancelToken;
pub use codec::Codec;
pub use meter::{BeatUnit, Meter};
pub use settings::{fnv1a_64, AnalysisSettings, Bpm, Model};
