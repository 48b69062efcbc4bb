pub mod expansion;
pub mod frames;
pub mod precursor_reader;
pub mod quad_settings;
pub mod splitting;

pub use frames::{AcquisitionType, FrameType};
pub use precursor_reader::{PrecursorBackend, PrecursorReader, PrecursorReaderError};
pub use expansion::{SplitSettings, WindowSubRange};
pub use quad_settings::{
    QuadrupoleSettings, QuadrupoleSettingsReader, QuadrupoleSettingsReaderError, SqlQuadSettings,
    SqlWindowGroup,
};
pub use splitting::{FrameWindowSplittingStrategy, QuadWindowExpansionStrategy};
