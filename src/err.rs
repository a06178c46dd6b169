//! The closed set of resolution errors, each with the HTTP status codes it may
//! be answered with, and the choice of one status for a list of errors.
use vstd::prelude::*;

verus! {

pub const STATUS_BAD_REQUEST: u16 = 400;
pub const STATUS_NOT_FOUND: u16 = 404;
pub const STATUS_PAYLOAD_TOO_LARGE: u16 = 413;
pub const STATUS_INTERNAL_SERVER_ERROR: u16 = 500;
pub const STATUS_INSUFFICIENT_STORAGE: u16 = 507;

#[derive(Clone, Copy, Debug, PartialEq, Eq, Structural)]
pub enum GetRepoFileError {
    MainConfigError,
    OpenConfig,
    ReadConfig,
    ParseConfig,
    NotFound,
    OpenFile,
    ReadDirectory,
    ReadDirectoryEntry,
    ReadDirectoryEntryNonUTF8Name,
    ReadDirectoryEntryFileType,
    Panicked,
    InvalidUTF8,
    BadRequestPath,
    UpstreamRequestError,
    UpstreamBodyReadError,
    UpstreamStatus,
    UpstreamFileTooLarge,
    PutFileTooLarge,
    FileCreateFailed,
    FileWriteFailed,
    FileFlushFailed,
    FileSeekFailed,
    FileLockFailed,
    FileStartsWithDot,
}

/// The status codes an error may be answered with; the first is its own.
pub open spec fn allowed_codes(e: GetRepoFileError) -> Seq<u16> {
    match e {
        GetRepoFileError::NotFound => seq![404u16, 500u16],
        GetRepoFileError::ReadDirectoryEntryNonUTF8Name => seq![400u16, 500u16],
        GetRepoFileError::ReadDirectoryEntryFileType => seq![400u16, 500u16],
        GetRepoFileError::InvalidUTF8 => seq![400u16, 500u16],
        GetRepoFileError::BadRequestPath => seq![400u16, 500u16],
        GetRepoFileError::UpstreamFileTooLarge => seq![507u16, 500u16],
        GetRepoFileError::PutFileTooLarge => seq![413u16, 500u16],
        GetRepoFileError::FileStartsWithDot => seq![400u16, 404u16, 500u16],
        _ => seq![500u16],
    }
}

/// Every error of `errors` allows `code`, and there is at least one error.
pub open spec fn allowed_by_all(errors: Seq<GetRepoFileError>, code: u16) -> bool {
    errors.len() > 0 && forall|i: int| 0 <= i < errors.len() ==> allowed_codes(#[trigger] errors[i]).contains(code)
}

/// The one status for a list of errors: the least code that every error allows,
/// or 500 where no code is allowed by all of them (or the list is empty).
pub open spec fn is_aggregate_status(errors: Seq<GetRepoFileError>, code: u16) -> bool {
    if exists|c: u16| allowed_by_all(errors, c) {
        allowed_by_all(errors, code) && forall|c: u16| allowed_by_all(errors, c) ==> code <= c
    } else {
        code == STATUS_INTERNAL_SERVER_ERROR
    }
}

impl GetRepoFileError {
    /// The line of text that describes this error to a client.
    pub fn get_err(self) -> (r: &'static str)
        ensures
            r@ == error_text(self),
    {
        match self {
            Self::MainConfigError => "Error getting main config",
            Self::OpenConfig => "Error opening repo config file",
            Self::ReadConfig => "Error reading repo config",
            Self::ParseConfig => "Error parsing repo config",
            Self::NotFound => "File or Directory could not be found",
            Self::OpenFile => "Error whilst opening file",
            Self::ReadDirectory => "Error whist reading directory",
            Self::ReadDirectoryEntry => "Error whist reading directory entries",
            Self::ReadDirectoryEntryNonUTF8Name => "Error: directory contains entries with non UTF-8 names",
            Self::ReadDirectoryEntryFileType => "Error: failed to get the file-type of the directory entry",
            Self::Panicked => "Error: implementation panicked",
            Self::InvalidUTF8 => "Error: request path included invalid utf-8 characters",
            Self::BadRequestPath => "Error: Request Path failed sanity checks",
            Self::UpstreamRequestError => "Error: Failed to send a request to the Upstream",
            Self::UpstreamBodyReadError => "Error: Failed to read the response of the Upstream",
            Self::FileCreateFailed => "Error: Failed to create a file to write the upstream's response into",
            Self::FileWriteFailed => "Error: Failed to write to a local file",
            Self::FileFlushFailed => "Error: Failed to flush a local file",
            Self::FileSeekFailed => "Error: Failed to seek a local file",
            Self::FileLockFailed => "Error: Failed to lock a local file",
            Self::UpstreamStatus => "Upstream repo responded with a non 200 status code",
            Self::UpstreamFileTooLarge => "The file from the remote is too Large.",
            Self::PutFileTooLarge => "The file is too Large.",
            Self::FileStartsWithDot => "Error: Refusing to contact upstream about files, which start with a '.'",
        }
    }

    /// The status codes this error may be answered with, its own first.
    pub fn allowed_status_codes_slice(self) -> (r: Vec<u16>)
        ensures
            r@ == allowed_codes(self),
    {
        match self {
            Self::NotFound => vec![404u16, 500u16],
            Self::ReadDirectoryEntryNonUTF8Name => vec![400u16, 500u16],
            Self::ReadDirectoryEntryFileType => vec![400u16, 500u16],
            Self::InvalidUTF8 => vec![400u16, 500u16],
            Self::BadRequestPath => vec![400u16, 500u16],
            Self::UpstreamFileTooLarge => vec![507u16, 500u16],
            Self::PutFileTooLarge => vec![413u16, 500u16],
            Self::FileStartsWithDot => vec![400u16, 404u16, 500u16],
            _ => vec![500u16],
        }
    }

    /// Whether this error may be answered with `code`.
    pub fn allows_status(self, code: u16) -> (r: bool)
        ensures
            r == allowed_codes(self).contains(code),
    {
        let codes = self.allowed_status_codes_slice();
        let mut i: usize = 0;
        while i < codes.len()
            invariant
                codes@ == allowed_codes(self),
                i <= codes.len(),
                forall|j: int| 0 <= j < i ==> codes@[j] != code,
            decreases codes.len() - i,
        {
            if codes[i] == code {
                return true;
            }
            i += 1;
        }
        false
    }

    /// The status code this error is answered with on its own.
    pub fn get_status_code(self) -> (r: u16)
        ensures
            r == allowed_codes(self)[0],
    {
        let codes = self.allowed_status_codes_slice();
        codes[0]
    }
}

/// The message of each error.
pub open spec fn error_text(e: GetRepoFileError) -> Seq<char> {
    match e {
        GetRepoFileError::MainConfigError => "Error getting main config"@,
        GetRepoFileError::OpenConfig => "Error opening repo config file"@,
        GetRepoFileError::ReadConfig => "Error reading repo config"@,
        GetRepoFileError::ParseConfig => "Error parsing repo config"@,
        GetRepoFileError::NotFound => "File or Directory could not be found"@,
        GetRepoFileError::OpenFile => "Error whilst opening file"@,
        GetRepoFileError::ReadDirectory => "Error whist reading directory"@,
        GetRepoFileError::ReadDirectoryEntry => "Error whist reading directory entries"@,
        GetRepoFileError::ReadDirectoryEntryNonUTF8Name => "Error: directory contains entries with non UTF-8 names"@,
        GetRepoFileError::ReadDirectoryEntryFileType => "Error: failed to get the file-type of the directory entry"@,
        GetRepoFileError::Panicked => "Error: implementation panicked"@,
        GetRepoFileError::InvalidUTF8 => "Error: request path included invalid utf-8 characters"@,
        GetRepoFileError::BadRequestPath => "Error: Request Path failed sanity checks"@,
        GetRepoFileError::UpstreamRequestError => "Error: Failed to send a request to the Upstream"@,
        GetRepoFileError::UpstreamBodyReadError => "Error: Failed to read the response of the Upstream"@,
        GetRepoFileError::FileCreateFailed => "Error: Failed to create a file to write the upstream's response into"@,
        GetRepoFileError::FileWriteFailed => "Error: Failed to write to a local file"@,
        GetRepoFileError::FileFlushFailed => "Error: Failed to flush a local file"@,
        GetRepoFileError::FileSeekFailed => "Error: Failed to seek a local file"@,
        GetRepoFileError::FileLockFailed => "Error: Failed to lock a local file"@,
        GetRepoFileError::UpstreamStatus => "Upstream repo responded with a non 200 status code"@,
        GetRepoFileError::UpstreamFileTooLarge => "The file from the remote is too Large."@,
        GetRepoFileError::PutFileTooLarge => "The file is too Large."@,
        GetRepoFileError::FileStartsWithDot => "Error: Refusing to contact upstream about files, which start with a '.'"@,
    }
}

/// The single outward status for a list of errors.
pub fn aggregate_status(errors: &Vec<GetRepoFileError>) -> (r: u16)
    ensures
        is_aggregate_status(errors@, r),
{
    if errors.len() == 0 {
        assert(forall|c: u16| !allowed_by_all(errors@, c));
        return STATUS_INTERNAL_SERVER_ERROR;
    }
    let candidates = errors[0].allowed_status_codes_slice();
    let mut best: Option<u16> = None;
    let mut k: usize = 0;
    while k < candidates.len()
        invariant
            errors@.len() > 0,
            candidates@ == allowed_codes(errors@[0]),
            k <= candidates.len(),
            match best {
                Some(b) => allowed_by_all(errors@, b) && forall|j: int|
                    0 <= j < k && allowed_by_all(errors@, #[trigger] candidates@[j]) ==> b <= candidates@[j],
                None => forall|j: int| 0 <= j < k ==> !allowed_by_all(errors@, #[trigger] candidates@[j]),
            },
        decreases candidates.len() - k,
    {
        let code = candidates[k];
        let mut all = true;
        let mut i: usize = 0;
        while i < errors.len()
            invariant
                i <= errors.len(),
                all == forall|j: int| 0 <= j < i ==> allowed_codes(#[trigger] errors@[j]).contains(code),
            decreases errors.len() - i,
        {
            if !errors[i].allows_status(code) {
                all = false;
            }
            i += 1;
        }
        if all {
            match best {
                Some(b) => {
                    if code < b {
                        best = Some(code);
                    }
                },
                None => {
                    best = Some(code);
                },
            }
        }
        k += 1;
    }
    match best {
        Some(b) => {
            assert forall|c: u16| allowed_by_all(errors@, c) implies b <= c by {
                assert(allowed_codes(errors@[0]).contains(c));
                let j = choose|j: int| 0 <= j < candidates@.len() && candidates@[j] == c;
            }
            b
        },
        None => {
            assert forall|c: u16| !allowed_by_all(errors@, c) by {
                if allowed_by_all(errors@, c) {
                    assert(allowed_codes(errors@[0]).contains(c));
                    let j = choose|j: int| 0 <= j < candidates@.len() && candidates@[j] == c;
                }
            }
            STATUS_INTERNAL_SERVER_ERROR
        },
    }
}

} // verus!
