use vstd::prelude::*;

use vstd::string::StringSliceAdditionalSpecFns;

use crate::splitting::FrameWindowSplittingStrategy;

verus! {

/// The precursor source that a run's file extension selects.
#[derive(Debug, Clone, Copy)]
pub enum PrecursorBackend {
    /// The columnar companion file.
    MiniTdf,
    /// The binary blob with its relational metadata store, with the
    /// window-splitting configuration, if any.
    Tdf(Option<FrameWindowSplittingStrategy>),
}

/// Why no precursor reader could be made.
#[derive(Debug, PartialEq, Eq)]
pub enum PrecursorReaderError {
    /// The columnar backend failed, for the reason given.
    MiniTDFPrecursorReaderError(String),
    /// The relational backend failed, for the reason given.
    TDFPrecursorReaderError(String),
    /// No backend reads this extension with this configuration.
    UnsupportedInput,
}

/// The bytes of the columnar file extension.
pub open spec fn parquet_extension() -> Seq<u8> {
    seq![112u8, 97u8, 114u8, 113u8, 117u8, 101u8, 116u8]
}

/// The bytes of the relational store extension.
pub open spec fn tdf_extension() -> Seq<u8> {
    seq![116u8, 100u8, 102u8]
}

/// The backend for a file extension (as bytes) and a configuration: the
/// columnar one for that extension without a configuration, the relational
/// one for its extension with any configuration, none otherwise.
pub open spec fn backend_for(
    extension: Option<Seq<u8>>,
    config: Option<FrameWindowSplittingStrategy>,
) -> Option<PrecursorBackend> {
    match extension {
        Some(e) => if e == parquet_extension() && config is None {
            Some(PrecursorBackend::MiniTdf)
        } else if e == tdf_extension() {
            Some(PrecursorBackend::Tdf(config))
        } else {
            None
        },
        None => None,
    }
}

pub open spec fn extension_bytes(extension: Option<&str>) -> Option<Seq<u8>> {
    match extension {
        Some(e) => Some(e.spec_bytes()),
        None => None,
    }
}

fn bytes_equal(a: &[u8], b: &[u8]) -> (r: bool)
    ensures
        r == (a@ == b@),
{
    if a.len() != b.len() {
        return false;
    }
    let mut i: usize = 0;
    while i < a.len()
        invariant
            a@.len() == b@.len(),
            i <= a@.len(),
            forall|k: int| 0 <= k < i ==> a@[k] == b@[k],
        decreases a@.len() - i,
    {
        if a[i] != b[i] {
            return false;
        }
        i += 1;
    }
    assert(a@ =~= b@);
    true
}

/// Selects the backend for a file extension and a configuration, or fails
/// with `UnsupportedInput` where there is none.
pub fn select_backend(
    extension: Option<&str>,
    config: Option<FrameWindowSplittingStrategy>,
) -> (r: Result<PrecursorBackend, PrecursorReaderError>)
    ensures
        match backend_for(extension_bytes(extension), config) {
            Some(b) => r == Ok::<PrecursorBackend, PrecursorReaderError>(b),
            None => r == Err::<PrecursorBackend, PrecursorReaderError>(
                PrecursorReaderError::UnsupportedInput,
            ),
        },
{
    let parquet: [u8; 7] = [112u8, 97u8, 114u8, 113u8, 117u8, 101u8, 116u8];
    let tdf: [u8; 3] = [116u8, 100u8, 102u8];
    assert(parquet@ =~= parquet_extension());
    assert(tdf@ =~= tdf_extension());
    match extension {
        Some(e) => {
            let bytes = e.as_bytes();
            let is_parquet = bytes_equal(bytes, parquet.as_slice());
            let is_tdf = bytes_equal(bytes, tdf.as_slice());
            if is_parquet && config.is_none() {
                Ok(PrecursorBackend::MiniTdf)
            } else if is_tdf {
                Ok(PrecursorBackend::Tdf(config))
            } else {
                Err(PrecursorReaderError::UnsupportedInput)
            }
        },
        None => Err(PrecursorReaderError::UnsupportedInput),
    }
}

/// The error that names the backend `b` as the one that failed, for the
/// reason `reason`.
pub open spec fn backend_error(b: PrecursorBackend, reason: String) -> PrecursorReaderError {
    match b {
        PrecursorBackend::MiniTdf => PrecursorReaderError::MiniTDFPrecursorReaderError(reason),
        PrecursorBackend::Tdf(_) => PrecursorReaderError::TDFPrecursorReaderError(reason),
    }
}

/// Indexed access to the precursors of a run, read by the backend that the
/// run's file extension selected.
pub struct PrecursorReader<P> {
    backend: PrecursorBackend,
    precursors: Vec<P>,
}

impl<P: Copy> PrecursorReader<P> {
    /// The precursors, in index order.
    pub closed spec fn view_precursors(&self) -> Seq<P> {
        self.precursors@
    }

    /// The backend the precursors were read with.
    pub closed spec fn view_backend(&self) -> PrecursorBackend {
        self.backend
    }

    /// Selects the backend for `extension` and `config`, then has `load`
    /// read the precursors with it. Fails with `UnsupportedInput` where no
    /// backend fits; where `load` fails, the error names the backend and
    /// carries the reason `load` gave.
    pub fn new<F>(
        extension: Option<&str>,
        config: Option<FrameWindowSplittingStrategy>,
        load: F,
    ) -> (r: Result<Self, PrecursorReaderError>) where
        F: FnOnce(PrecursorBackend) -> Result<Vec<P>, String>,

        requires
            forall|b: PrecursorBackend| load.requires((b,)),
        ensures
            match backend_for(extension_bytes(extension), config) {
                None => r == Err::<Self, PrecursorReaderError>(PrecursorReaderError::UnsupportedInput),
                Some(b) => exists|loaded: Result<Vec<P>, String>|
                    #[trigger] load.ensures((b,), loaded) && match loaded {
                        Ok(v) => r is Ok && r->Ok_0.view_precursors() == v@
                            && r->Ok_0.view_backend() == b,
                        Err(e) => r == Err::<Self, PrecursorReaderError>(backend_error(b, e)),
                    },
            },
    {
        let backend = match select_backend(extension, config) {
            Ok(b) => b,
            Err(e) => return Err(e),
        };
        let loaded = load(backend);
        match loaded {
            Ok(precursors) => Ok(PrecursorReader { backend, precursors }),
            Err(e) => match backend {
                PrecursorBackend::MiniTdf => Err(PrecursorReaderError::MiniTDFPrecursorReaderError(e)),
                PrecursorBackend::Tdf(_) => Err(PrecursorReaderError::TDFPrecursorReaderError(e)),
            },
        }
    }

    /// The precursor at `index`, if there is one.
    pub fn get(&self, index: usize) -> (r: Option<P>)
        ensures
            r == (if index < self.view_precursors().len() {
                Some(self.view_precursors()[index as int])
            } else {
                None::<P>
            }),
    {
        if index < self.precursors.len() {
            Some(self.precursors[index])
        } else {
            None
        }
    }

    /// The number of precursors.
    pub fn len(&self) -> (r: usize)
        ensures
            r == self.view_precursors().len(),
    {
        self.precursors.len()
    }

    /// The backend the precursors were read with.
    pub fn backend(&self) -> (r: PrecursorBackend)
        ensures
            r == self.view_backend(),
    {
        self.backend
    }
}

} // verus!
