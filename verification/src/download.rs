//! Download options, strategies, messages and errors, and the decisions that
//! a download task takes on the answers of the server.

use vstd::prelude::*;
use vstd::string::*;
use std::ops::Range;
use vstd::utf8::*;
use crate::chunks::ChunkPlan;
use crate::headers::{
    content_disposition_parameters, read_content_disposition, spec_content_length_value,
    read_content_length, string_from_utf8, DispositionParam, DispositionParamView,
};

verus! {

/// The abstract content of download [`Options`].
pub struct OptionsView {
    pub thread_count: u16,
    pub chunk_size: u64,
    pub output_directory: Seq<char>,
    pub output_file_name: Seq<char>,
}

/// A download task's options.
#[derive(Clone, PartialEq, Eq, Debug)]
pub struct Options {
    /// The maximum threads to use. Defaults to `4`.
    pub thread_count: u16,
    /// The maximum size of a chunk (in kilobytes). Defaults to `5000`.
    pub chunk_size: u64,
    /// The output directory path where the downloaded file is to be saved.
    /// Defaults to `"./"` (the working directory).
    pub output_directory: String,
    /// The name given to the downloaded file. Defaults to `""`.
    ///
    /// If the empty string is specified, the name suggested by the server
    /// will be used instead. If the server does not provide a suggestion,
    /// the file is named `"untitled"`.
    pub output_file_name: String,
}

impl View for Options {
    type V = OptionsView;

    open spec fn view(&self) -> OptionsView {
        OptionsView {
            thread_count: self.thread_count,
            chunk_size: self.chunk_size,
            output_directory: self.output_directory@,
            output_file_name: self.output_file_name@,
        }
    }
}

impl Default for Options {
    /// Creates an `Options` structure with default values.
    fn default() -> (options: Options)
        ensures
            options.thread_count == 4,
            options.chunk_size == 5000,
            options.output_directory@ == "./"@,
            options.output_file_name@ == Seq::<char>::empty(),
    {
        Options {
            thread_count: 4,
            chunk_size: 5000,
            output_directory: String::from_str("./"),
            output_file_name: String::new(),
        }
    }
}

impl Options {
    /// A copy of these options.
    fn duplicate(&self) -> (copy: Options)
        ensures
            copy@ == self@,
    {
        Options {
            thread_count: self.thread_count,
            chunk_size: self.chunk_size,
            output_directory: self.output_directory.clone(),
            output_file_name: self.output_file_name.clone(),
        }
    }
}

/// The possible download strategies.
#[derive(Clone, Copy, PartialEq, Eq, Debug)]
pub enum Strategy {
    /// Download the entire content in one chunk.
    SingleChunk,
    /// Download the content across several chunks sequentially.
    SequentialMultiChunk,
    /// Download the content across several chunks concurrently.
    ConcurrentMultiChunk,
}

/// The messages that a download task emits.
#[derive(PartialEq, Eq, Debug)]
pub enum Message {
    /// Details the chosen download strategy.
    ChosenStrategy(Strategy),
    /// The task has begun its operation.
    TaskStarted,
    /// The task has concluded its operation.
    TaskEnded,
    /// Received a chunk of bytes from the server.
    ReceivedChunk {
        /// The chunk's index.
        index: u64,
        /// The chunk's byte range.
        content_byte_range: Range<u64>,
    },
    /// Wrote a chunk of bytes to the filesystem.
    WroteChunk {
        /// The chunk's index.
        index: u64,
        /// The number of bytes written.
        byte_count: u64,
    },
}

/// The kinds of a filesystem IO-related error: those of the standard
/// library's `std::io::ErrorKind` that a download meets, and `Other` for every
/// kind not listed.
#[derive(Clone, Copy, PartialEq, Eq, Debug)]
pub enum IoErrorKind {
    NotFound,
    PermissionDenied,
    ConnectionRefused,
    ConnectionReset,
    ConnectionAborted,
    NotConnected,
    AddrInUse,
    AddrNotAvailable,
    BrokenPipe,
    AlreadyExists,
    WouldBlock,
    InvalidInput,
    InvalidData,
    TimedOut,
    WriteZero,
    Interrupted,
    Unsupported,
    UnexpectedEof,
    OutOfMemory,
    Other,
}

/// The abstract content of an [`Error`].
pub enum ErrorView {
    InvalidOption(Seq<char>),
    Http(Seq<char>),
    Tls(Seq<char>),
    MissingResponseHeader(Seq<char>),
    UnexpectedResponseLength { expected: u64, actual: u64 },
    EmptyTarget(Seq<char>),
    Io { kind: IoErrorKind, description: Seq<char> },
    Internal,
}

/// The possible download errors.
///
/// Where the cause is an error of the HTTP, TLS or filesystem layer, the
/// variant carries that error's description.
#[derive(Clone, PartialEq, Eq, Debug)]
pub enum Error {
    /// An option is not properly configured.
    InvalidOption(String),
    /// An HTTP-related error has occurred.
    Http(String),
    /// A TLS-related error has occurred.
    Tls(String),
    /// The response from the server was missing a header.
    MissingResponseHeader(String),
    /// The response from the server has different length than expected.
    UnexpectedResponseLength {
        /// The expected number of bytes to receive.
        expected: u64,
        /// The actual number of bytes received.
        actual: u64,
    },
    /// The target's content length is zero bytes.
    EmptyTarget(String),
    /// A filesystem IO-related error has occurred.
    Io {
        /// The error's kind.
        kind: IoErrorKind,
        /// The error's description.
        description: String,
    },
    /// An internal error has occurred.
    Internal,
}

impl View for Error {
    type V = ErrorView;

    open spec fn view(&self) -> ErrorView {
        match self {
            Error::InvalidOption(s) => ErrorView::InvalidOption(s@),
            Error::Http(s) => ErrorView::Http(s@),
            Error::Tls(s) => ErrorView::Tls(s@),
            Error::MissingResponseHeader(s) => ErrorView::MissingResponseHeader(s@),
            Error::UnexpectedResponseLength { expected, actual } => ErrorView::UnexpectedResponseLength {
                expected: *expected,
                actual: *actual,
            },
            Error::EmptyTarget(s) => ErrorView::EmptyTarget(s@),
            Error::Io { kind, description } => ErrorView::Io {
                kind: *kind,
                description: description@,
            },
            Error::Internal => ErrorView::Internal,
        }
    }
}

/// The strategy for `content_byte_count` bytes in chunks of at most
/// `chunk_byte_count` bytes: one chunk when the content fits in one or the
/// server cannot send parts of it; otherwise several, one after the other when
/// at most one thread may be used, and concurrently when more may.
pub open spec fn spec_strategy(
    content_byte_count: int,
    chunk_byte_count: int,
    supports_partial_content: bool,
    thread_count: int,
) -> Strategy {
    if content_byte_count <= chunk_byte_count || !supports_partial_content {
        Strategy::SingleChunk
    } else if thread_count <= 1 {
        Strategy::SequentialMultiChunk
    } else {
        Strategy::ConcurrentMultiChunk
    }
}

/// Chooses the download strategy; see [`spec_strategy`].
pub fn choose_strategy(
    content_byte_count: u64,
    chunk_byte_count: u64,
    supports_partial_content: bool,
    thread_count: u16,
) -> (strategy: Strategy)
    ensures
        strategy == spec_strategy(
            content_byte_count as int,
            chunk_byte_count as int,
            supports_partial_content,
            thread_count as int,
        ),
{
    if content_byte_count <= chunk_byte_count || !supports_partial_content {
        Strategy::SingleChunk
    } else if thread_count <= 1 {
        Strategy::SequentialMultiChunk
    } else {
        Strategy::ConcurrentMultiChunk
    }
}

/// The first parameter of `params` that names a file, as its bytes.
pub open spec fn spec_first_filename(params: Seq<DispositionParamView>) -> Option<Seq<u8>>
    decreases params.len(),
{
    if params.len() == 0 {
        None
    } else {
        match params[0] {
            DispositionParamView::Filename(bytes) => Some(bytes),
            DispositionParamView::Ext(_, _) => spec_first_filename(params.drop_first()),
        }
    }
}

/// The file name that the server suggests through the parameters `params` of
/// a `Content-Disposition` header: the first file name among them, where its
/// bytes are valid UTF-8.
pub open spec fn spec_suggested_file_name(params: Seq<DispositionParamView>) -> Option<Seq<char>> {
    match spec_first_filename(params) {
        Some(bytes) => if valid_utf8(bytes) {
            Some(decode_utf8(bytes))
        } else {
            None
        },
        None => None,
    }
}

/// The file name that the server suggests through the raw lines of a
/// `Content-Disposition` header, where one was sent.
pub open spec fn spec_disposition_file_name(raw: Option<Seq<Seq<u8>>>) -> Option<Seq<char>> {
    match raw {
        Some(lines) => match content_disposition_parameters(lines) {
            Some(params) => spec_suggested_file_name(params),
            None => None,
        },
        None => None,
    }
}

/// The content length that the raw lines of a `Content-Length` header give,
/// where one was sent and could be read.
pub open spec fn spec_header_content_length(raw: Option<Seq<Seq<u8>>>) -> Option<u64> {
    match raw {
        Some(lines) => spec_content_length_value(lines),
        None => None,
    }
}

/// The name of the output file: the one of the options when it is not empty,
/// else the one the server suggested when it is not empty, else `current`.
pub open spec fn spec_output_file_name(
    option_name: Seq<char>,
    suggested: Option<Seq<char>>,
    current: Seq<char>,
) -> Seq<char> {
    if option_name.len() != 0 {
        option_name
    } else if suggested is Some && suggested->0.len() != 0 {
        suggested->0
    } else {
        current
    }
}

/// The path of the output file: the directory, a `/` where the directory does
/// not end with one, and the file name.
pub open spec fn spec_output_file_path(directory: Seq<char>, file_name: Seq<char>) -> Seq<char> {
    if directory.len() > 0 && directory.last() == '/' {
        directory + file_name
    } else {
        directory + seq!['/'] + file_name
    }
}

/// The abstract content of a [`Task`].
pub struct TaskView {
    pub options: OptionsView,
    pub target_url: Seq<char>,
    pub target_content_length: Option<u64>,
    pub target_supports_partial_content: Option<bool>,
    pub target_file_name: Option<Seq<char>>,
    pub is_initialized: bool,
    pub output_file_name: Seq<char>,
    pub output_file_path: Option<Seq<char>>,
}

/// A single file's download task: what is known of the target, and where the
/// content is to be saved.
///
/// A task is made by [`Task::new`] and initialized by feeding it, in order,
/// the answer to a `HEAD` request ([`Task::accept_head_response`]), the
/// status of a request for the first bytes of the content
/// ([`Task::accept_probe_response`]), and what is found at the output
/// directory ([`Task::accept_output_directory`]).
#[derive(Debug)]
pub struct Task {
    options: Options,
    target_url: String,
    target_content_length: Option<u64>,
    target_supports_partial_content: Option<bool>,
    target_file_name: Option<String>,
    is_initialized: bool,
    output_file_name: String,
    output_file_path: Option<String>,
}

/// The description of the error that a missing output directory gives.
pub open spec fn spec_missing_directory_message() -> Seq<char> {
    "The specified path is either not a directory or does not exist."@
}

impl Task {
    #[verifier::type_invariant]
    spec fn initialized_task_is_complete(self) -> bool {
        &&& self.options.thread_count > 0
        &&& self.options.chunk_size > 0
        &&& self.is_initialized ==> {
            &&& self.target_content_length matches Some(n) && n > 0
            &&& self.target_supports_partial_content is Some
            &&& self.output_file_path is Some
        }
    }

    /// The abstract content of the task.
    pub closed spec fn view(&self) -> TaskView {
        TaskView {
            options: self.options@,
            target_url: self.target_url@,
            target_content_length: self.target_content_length,
            target_supports_partial_content: self.target_supports_partial_content,
            target_file_name: match self.target_file_name {
                Some(name) => Some(name@),
                None => None,
            },
            is_initialized: self.is_initialized,
            output_file_name: self.output_file_name@,
            output_file_path: match self.output_file_path {
                Some(path) => Some(path@),
                None => None,
            },
        }
    }

    /// Creates a new download task for `target_url`, not yet initialized.
    ///
    /// Returns `Err(Error::InvalidOption(..))` when an option is improperly
    /// configured: a thread count or a chunk size of zero.
    pub fn new(target_url: &str, options: &Options) -> (result: Result<Task, Error>)
        ensures
            options.thread_count == 0 ==> (result matches Err(e) && e@ == ErrorView::InvalidOption(
                "Thread must be at least one."@,
            )),
            options.thread_count != 0 && options.chunk_size == 0 ==> (result matches Err(e) && e@
                == ErrorView::InvalidOption("Chunk size must be at least one."@)),
            options.thread_count != 0 && options.chunk_size != 0 ==> (result matches Ok(task)
                && task@ == TaskView {
                options: options@,
                target_url: target_url@,
                target_content_length: None,
                target_supports_partial_content: None,
                target_file_name: None,
                is_initialized: false,
                output_file_name: "untitled"@,
                output_file_path: None,
            }),
    {
        if options.thread_count == 0 {
            return Err(Error::InvalidOption(String::from_str("Thread must be at least one.")));
        } else if options.chunk_size == 0 {
            return Err(Error::InvalidOption(String::from_str("Chunk size must be at least one.")));
        }
        Ok(Task {
            options: options.duplicate(),
            target_url: String::from_str(target_url),
            target_content_length: None,
            target_supports_partial_content: None,
            target_file_name: None,
            is_initialized: false,
            output_file_name: String::from_str("untitled"),
            output_file_path: None,
        })
    }

    /// Records the content length that a `Content-Length` header gave.
    ///
    /// Returns `Err(Error::EmptyTarget(..))`, with the target URL, if the
    /// content length is zero bytes.
    fn extract_content_length(&mut self, byte_count: u64) -> (result: Result<(), Error>)
        requires
            old(self)@.target_content_length is None,
            !old(self)@.is_initialized,
        ensures
            final(self)@ == (TaskView { target_content_length: Some(byte_count), ..old(self)@ }),
            byte_count == 0 ==> (result matches Err(e) && e@ == ErrorView::EmptyTarget(
                old(self)@.target_url,
            )),
            byte_count != 0 ==> result is Ok,
    {
        proof { use_type_invariant(&*self); }
        self.target_content_length = Some(byte_count);
        if byte_count == 0 {
            Err(Error::EmptyTarget(self.target_url.clone()))
        } else {
            Ok(())
        }
    }

    /// Records the file name that the first file name parameter of a
    /// `Content-Disposition` header gives, if there is one. Returns whether
    /// there was one.
    fn extract_file_name(&mut self, params: &Vec<DispositionParam>) -> (found: bool)
        requires
            old(self)@.target_file_name is None,
        ensures
            found == spec_first_filename(params@.map_values(|p: DispositionParam| p@)) is Some,
            final(self)@ == (TaskView {
                target_file_name: spec_suggested_file_name(
                    params@.map_values(|p: DispositionParam| p@),
                ),
                ..old(self)@
            }),
    {
        proof { use_type_invariant(&*self); }
        let ghost all = params@.map_values(|p: DispositionParam| p@);
        proof {
            assert(all.skip(0) =~= all);
        }
        let mut i: usize = 0;
        while i < params.len()
            invariant
                i <= params@.len(),
                all == params@.map_values(|p: DispositionParam| p@),
                spec_first_filename(all) == spec_first_filename(all.skip(i as int)),
                self@ == old(self)@,
            decreases params@.len() - i,
        {
            proof {
                assert(all.skip(i as int).drop_first() =~= all.skip(i + 1));
                assert(all.skip(i as int)[0] == params@[i as int]@);
            }
            match &params[i] {
                DispositionParam::Filename(bytes) => {
                    let copy = bytes.clone();
                    proof {
                        assert(copy@ =~= bytes@);
                        use_type_invariant(&*self);
                    }
                    self.target_file_name = string_from_utf8(copy);
                    return true;
                },
                DispositionParam::Ext(_, _) => {},
            }
            i = i + 1;
        }
        proof {
            assert(all.skip(i as int).len() == 0);
        }
        false
    }

    /// Takes in the answer to the `HEAD` request for the target: the raw lines
    /// of its `Content-Length` and `Content-Disposition` headers, where sent.
    ///
    /// Returns `Err(Error::MissingResponseHeader(..))` when the content length
    /// cannot be read, and `Err(Error::EmptyTarget(..))` when it is zero bytes.
    pub fn accept_head_response(
        &mut self,
        content_length: Option<Vec<Vec<u8>>>,
        content_disposition: Option<Vec<Vec<u8>>>,
    ) -> (result: Result<(), Error>)
        requires
            old(self)@.target_content_length is None,
            old(self)@.target_file_name is None,
            !old(self)@.is_initialized,
        ensures
            ({
                let length = spec_header_content_length(content_length.deep_view());
                &&& length is None ==> {
                    &&& result matches Err(e) && e@ == ErrorView::MissingResponseHeader(
                        "Content-Length"@,
                    )
                    &&& final(self)@ == old(self)@
                }
                &&& length == Some(0u64) ==> {
                    &&& result matches Err(e) && e@ == ErrorView::EmptyTarget(old(self)@.target_url)
                    &&& final(self)@ == (TaskView {
                        target_content_length: Some(0u64),
                        ..old(self)@
                    })
                }
                &&& (length is Some && length->0 > 0) ==> {
                    &&& result is Ok
                    &&& final(self)@ == (TaskView {
                        target_content_length: length,
                        target_file_name: spec_disposition_file_name(
                            content_disposition.deep_view(),
                        ),
                        ..old(self)@
                    })
                }
            }),
    {
        let length = match &content_length {
            Some(raw) => read_content_length(raw),
            None => None,
        };
        let byte_count = match length {
            Some(n) => n,
            None => {
                return Err(Error::MissingResponseHeader(String::from_str("Content-Length")));
            },
        };
        let extracted = self.extract_content_length(byte_count);
        if extracted.is_err() {
            return extracted;
        }
        if let Some(raw) = &content_disposition {
            if let Some(params) = read_content_disposition(raw) {
                self.extract_file_name(&params);
            }
        }
        Ok(())
    }

    /// Records whether the target supports partial content, from the status
    /// code of the answer to a request for its first bytes: it does when the
    /// status is `206 Partial Content`.
    fn check_for_partial_content_support(&mut self, status: u16)
        requires
            old(self)@.target_supports_partial_content is None,
        ensures
            final(self)@ == (TaskView {
                target_supports_partial_content: Some(status == 206),
                ..old(self)@
            }),
    {
        proof { use_type_invariant(&*self); }
        self.target_supports_partial_content = Some(status == 206);
    }

    /// Chooses the name of the output file; see [`spec_output_file_name`].
    fn initialize_output_file_name(&mut self)
        ensures
            final(self)@ == (TaskView {
                output_file_name: spec_output_file_name(
                    old(self)@.options.output_file_name,
                    old(self)@.target_file_name,
                    old(self)@.output_file_name,
                ),
                ..old(self)@
            }),
    {
        proof { use_type_invariant(&*self); }
        if !self.options.output_file_name.as_str().is_empty() {
            self.output_file_name = self.options.output_file_name.clone();
        } else if let Some(file_name) = &self.target_file_name {
            if !file_name.as_str().is_empty() {
                self.output_file_name = file_name.clone();
            }
        }
    }

    /// Sets the path of the output file; see [`spec_output_file_path`].
    fn initialize_output_file_path(&mut self)
        requires
            old(self)@.output_file_path is None,
        ensures
            final(self)@ == (TaskView {
                output_file_path: Some(
                    spec_output_file_path(
                        old(self)@.options.output_directory,
                        old(self)@.output_file_name,
                    ),
                ),
                ..old(self)@
            }),
    {
        proof { use_type_invariant(&*self); }
        let mut path = self.options.output_directory.clone();
        proof {
            reveal_strlit("/");
        }
        if !ends_with_slash(path.as_str()) {
            path.append("/");
        }
        path.append(self.output_file_name.as_str());
        proof {
            assert(path@ =~= spec_output_file_path(self.options.output_directory@, self.output_file_name@));
        }
        self.output_file_path = Some(path);
    }

    /// The byte range that the request for the first bytes of the target asks
    /// for: the first ten bytes, whose answer tells whether the server can send
    /// parts of the content.
    pub fn partial_content_probe_range() -> (range: (u64, u64))
        ensures
            range == (0u64, 9u64),
    {
        (0, 9)
    }

    /// Takes in the status code of the answer to the request for the first
    /// bytes of the target, then chooses the name and the path of the output
    /// file.
    pub fn accept_probe_response(&mut self, status: u16)
        requires
            old(self)@.target_supports_partial_content is None,
            old(self)@.output_file_path is None,
        ensures
            ({
                let name = spec_output_file_name(
                    old(self)@.options.output_file_name,
                    old(self)@.target_file_name,
                    old(self)@.output_file_name,
                );
                final(self)@ == (TaskView {
                    target_supports_partial_content: Some(status == 206),
                    output_file_name: name,
                    output_file_path: Some(
                        spec_output_file_path(old(self)@.options.output_directory, name),
                    ),
                    ..old(self)@
                })
            }),
    {
        self.check_for_partial_content_support(status);
        self.initialize_output_file_name();
        self.initialize_output_file_path();
    }

    /// Takes in what was found at the output directory, and completes the
    /// initialization if it is an existing directory.
    ///
    /// Returns `Err(Error::Io { kind: IoErrorKind::NotFound, .. })` when the
    /// output directory is either not a
    /// directory or does not exist.
    pub fn accept_output_directory(&mut self, is_directory: bool, exists: bool) -> (result: Result<
        (),
        Error,
    >)
        requires
            old(self)@.target_content_length matches Some(n) && n > 0,
            old(self)@.target_supports_partial_content is Some,
            old(self)@.output_file_path is Some,
        ensures
            !is_directory || !exists ==> {
                &&& result matches Err(e) && e@ == (ErrorView::Io {
                    kind: IoErrorKind::NotFound,
                    description: spec_missing_directory_message(),
                })
                &&& final(self)@ == old(self)@
            },
            is_directory && exists ==> {
                &&& result is Ok
                &&& final(self)@ == (TaskView { is_initialized: true, ..old(self)@ })
            },
    {
        proof { use_type_invariant(&*self); }
        if !is_directory || !exists {
            return Err(
                Error::Io {
                    kind: IoErrorKind::NotFound,
                    description: String::from_str(
                        "The specified path is either not a directory or does not exist.",
                    ),
                },
            );
        }
        self.is_initialized = true;
        Ok(())
    }

    /// Gets a reference to the options container.
    pub fn options(&self) -> (options: &Options)
        ensures
            options@ == self@.options,
            options.thread_count > 0,
            options.chunk_size > 0,
    {
        proof { use_type_invariant(self); }
        &self.options
    }

    /// Gets a reference to the target URL.
    pub fn target_url(&self) -> (url: &str)
        ensures
            url@ == self@.target_url,
    {
        self.target_url.as_str()
    }

    /// Gets the target's content length (in bytes).
    pub fn target_content_length(&self) -> (length: u64)
        requires
            self@.target_content_length is Some,
        ensures
            length == self@.target_content_length->0,
            self@.is_initialized ==> length > 0,
    {
        proof { use_type_invariant(self); }
        match self.target_content_length {
            Some(length) => length,
            None => 0,
        }
    }

    /// Gets a reference to the target's file name.
    pub fn target_file_name(&self) -> (name: Option<&str>)
        ensures
            name is Some <==> self@.target_file_name is Some,
            name matches Some(n) ==> n@ == self@.target_file_name->0,
    {
        match &self.target_file_name {
            Some(name) => Some(name.as_str()),
            None => None,
        }
    }

    /// Indicates whether the target supports partial content fetching.
    pub fn target_supports_partial_content(&self) -> (supported: bool)
        requires
            self@.target_supports_partial_content is Some,
        ensures
            supported == self@.target_supports_partial_content->0,
    {
        match self.target_supports_partial_content {
            Some(supported) => supported,
            None => false,
        }
    }

    /// Gets the output file's name.
    pub fn output_file_name(&self) -> (name: &str)
        ensures
            name@ == self@.output_file_name,
    {
        self.output_file_name.as_str()
    }

    /// Gets the output file's path.
    pub fn output_file_path(&self) -> (path: &str)
        requires
            self@.output_file_path is Some,
        ensures
            path@ == self@.output_file_path->0,
    {
        match &self.output_file_path {
            Some(path) => path.as_str(),
            None => "",
        }
    }

    /// Whether the task has been initialized.
    pub fn is_initialized(&self) -> (initialized: bool)
        ensures
            initialized == self@.is_initialized,
            self@.options.thread_count > 0,
            self@.options.chunk_size > 0,
            initialized ==> {
                &&& self@.target_content_length matches Some(n) && n > 0
                &&& self@.target_supports_partial_content is Some
                &&& self@.output_file_path is Some
            },
    {
        proof { use_type_invariant(self); }
        self.is_initialized
    }

    /// The greatest number of bytes in a chunk: the chunk size option, which
    /// is in kilobytes, in bytes.
    pub fn chunk_byte_count(&self) -> (count: u64)
        requires
            self@.options.chunk_size * 1000 <= u64::MAX,
        ensures
            count == self@.options.chunk_size * 1000,
    {
        self.options.chunk_size * 1000
    }

    /// The strategy of the download and the division of the content into
    /// chunks that it follows: a single chunk of the whole content for
    /// [`Strategy::SingleChunk`], chunks of the chunk size otherwise.
    pub fn download_plan(&self) -> (plan: (Strategy, ChunkPlan))
        requires
            self@.is_initialized,
            self@.options.chunk_size * 1000 <= u64::MAX,
        ensures
            ({
                let content = self@.target_content_length->0 as int;
                let chunk = self@.options.chunk_size * 1000;
                &&& plan.0 == spec_strategy(
                    content,
                    chunk,
                    self@.target_supports_partial_content->0,
                    self@.options.thread_count as int,
                )
                &&& plan.1.content() == content
                &&& plan.1.chunk() == if plan.0 == Strategy::SingleChunk {
                    content
                } else {
                    chunk
                }
                &&& plan.1 == ChunkPlan::spec_new(content as u64, plan.1.chunk() as u64)
            }),
    {
        proof { use_type_invariant(self); }
        let content_byte_count = self.target_content_length();
        let chunk_byte_count = self.chunk_byte_count();
        let strategy = choose_strategy(
            content_byte_count,
            chunk_byte_count,
            self.target_supports_partial_content(),
            self.options.thread_count,
        );
        let plan = match strategy {
            Strategy::SingleChunk => ChunkPlan::new(content_byte_count, content_byte_count),
            _ => ChunkPlan::new(content_byte_count, chunk_byte_count),
        };
        (strategy, plan)
    }
}

/// What happened last in the run of a download, for [`Task::run_step`].
pub enum RunEvent {
    /// The download is asked to start.
    Start,
    /// The output file was created, or could not be.
    OutputFileCreated(Result<(), Error>),
    /// The content was downloaded and written, or the download failed.
    Downloaded(Result<(), Error>),
}

/// What to do next in the run of a download; the actions that
/// [`Task::run_step`] returns are to be carried out in order.
pub enum RunAction {
    /// Report the message.
    Report(Message),
    /// Create the output file at the task's output path.
    CreateOutputFile,
    /// Download the content with the strategy, following the plan.
    Download(Strategy, ChunkPlan),
    /// Stop with the result; on success, the output is at the task's output
    /// path.
    Finish(Result<(), Error>),
}

/// The actions that a download run of a task with the abstract content
/// `task` takes on `event`; see [`Task::run_step`]. They depend on the task and
/// the event alone, so two runs of the same task, given the same events, take
/// the same actions.
pub open spec fn spec_run_actions(task: TaskView, event: RunEvent) -> Seq<RunAction> {
    match event {
        RunEvent::Start => seq![RunAction::Report(Message::TaskStarted), RunAction::CreateOutputFile],
        RunEvent::OutputFileCreated(Err(e)) => seq![RunAction::Finish(Err(e))],
        RunEvent::OutputFileCreated(Ok(_)) => {
            let content = task.target_content_length->0 as int;
            let chunk = task.options.chunk_size * 1000;
            let strategy = spec_strategy(
                content,
                chunk,
                task.target_supports_partial_content->0,
                task.options.thread_count as int,
            );
            let plan_chunk = if strategy == Strategy::SingleChunk {
                content
            } else {
                chunk
            };
            seq![
                RunAction::Report(Message::ChosenStrategy(strategy)),
                RunAction::Download(strategy, ChunkPlan::spec_new(content as u64, plan_chunk as u64)),
            ]
        },
        RunEvent::Downloaded(Err(e)) => seq![RunAction::Finish(Err(e))],
        RunEvent::Downloaded(Ok(_)) => seq![
            RunAction::Report(Message::TaskEnded),
            RunAction::Finish(Ok(())),
        ],
    }
}

impl Task {
    /// The next actions of a download run on `event`: on the start, report
    /// that the task started and create the output file; once the file is
    /// there, report the chosen strategy and download with it (see
    /// [`Task::download_plan`]); once the download is done, report that the
    /// task ended and finish. A failure to create the file or to download
    /// finishes with that error.
    pub fn run_step(&self, event: RunEvent) -> (actions: Vec<RunAction>)
        requires
            self@.is_initialized,
            event matches RunEvent::OutputFileCreated(Ok(_)) ==> self@.options.chunk_size * 1000
                <= u64::MAX,
        ensures
            actions@ == spec_run_actions(self@, event),
            event is Start ==> actions@.len() == 2 && actions@[0] == RunAction::Report(
                Message::TaskStarted,
            ) && actions@[1] is CreateOutputFile,
            event matches RunEvent::OutputFileCreated(Err(e)) ==> actions@ == seq![
                RunAction::Finish(Err(e)),
            ],
            event matches RunEvent::OutputFileCreated(Ok(_)) ==> ({
                let content = self@.target_content_length->0 as int;
                let chunk = self@.options.chunk_size * 1000;
                let strategy = spec_strategy(
                    content,
                    chunk,
                    self@.target_supports_partial_content->0,
                    self@.options.thread_count as int,
                );
                &&& actions@.len() == 2
                &&& actions@[0] == RunAction::Report(Message::ChosenStrategy(strategy))
                &&& actions@[1] matches RunAction::Download(s, plan) && s == strategy
                    && plan.content() == content && plan.chunk() == if strategy
                    == Strategy::SingleChunk {
                    content
                } else {
                    chunk
                }
            }),
            event matches RunEvent::Downloaded(Err(e)) ==> actions@ == seq![
                RunAction::Finish(Err(e)),
            ],
            event matches RunEvent::Downloaded(Ok(_)) ==> actions@ == seq![
                RunAction::Report(Message::TaskEnded),
                RunAction::Finish(Ok(())),
            ],
    {
        let mut actions: Vec<RunAction> = Vec::new();
        match event {
            RunEvent::Start => {
                actions.push(RunAction::Report(Message::TaskStarted));
                actions.push(RunAction::CreateOutputFile);
            },
            RunEvent::OutputFileCreated(Err(e)) => {
                actions.push(RunAction::Finish(Err(e)));
            },
            RunEvent::OutputFileCreated(Ok(())) => {
                let (strategy, plan) = self.download_plan();
                actions.push(RunAction::Report(Message::ChosenStrategy(strategy)));
                actions.push(RunAction::Download(strategy, plan));
            },
            RunEvent::Downloaded(Err(e)) => {
                actions.push(RunAction::Finish(Err(e)));
            },
            RunEvent::Downloaded(Ok(())) => {
                actions.push(RunAction::Report(Message::TaskEnded));
                actions.push(RunAction::Finish(Ok(())));
            },
        }
        actions
    }
}

/// A strategy of several chunks is chosen only for content that takes more
/// than one chunk.
pub proof fn lemma_multi_chunk_strategies_split_content(
    content_byte_count: int,
    chunk_byte_count: int,
    supports_partial_content: bool,
    thread_count: int,
)
    requires
        0 < content_byte_count <= u64::MAX,
        0 < chunk_byte_count <= u64::MAX,
        spec_strategy(content_byte_count, chunk_byte_count, supports_partial_content, thread_count)
            != Strategy::SingleChunk,
    ensures
        crate::chunks::spec_chunk_count(content_byte_count, chunk_byte_count) >= 2,
        supports_partial_content,
{
    crate::chunks::lemma_below_chunk_count(1, content_byte_count, chunk_byte_count);
    assert(1 * chunk_byte_count == chunk_byte_count) by (nonlinear_arith);
}

/// Starting from the name `untitled` that a new task has, the output file
/// name is never empty: the option's name wins when it is not empty, then the
/// server's suggestion when it is not empty.
pub proof fn lemma_output_file_name_never_empty(
    option_name: Seq<char>,
    suggested: Option<Seq<char>>,
)
    ensures
        spec_output_file_name(option_name, suggested, "untitled"@).len() > 0,
        option_name.len() > 0 ==> spec_output_file_name(option_name, suggested, "untitled"@)
            == option_name,
        option_name.len() == 0 && suggested is Some && suggested->0.len() > 0
            ==> spec_output_file_name(option_name, suggested, "untitled"@) == suggested->0,
{
    reveal_strlit("untitled");
}

/// The strategy of a download: a single chunk exactly when the content fits
/// in one chunk or the server cannot send parts of it; otherwise several chunks
/// one after the other exactly when at most one thread may be used, and several
/// chunks at once exactly when two or more may, whatever the sizes.
pub proof fn lemma_strategy_choice(
    content_byte_count: int,
    chunk_byte_count: int,
    supports_partial_content: bool,
    thread_count: int,
)
    ensures
        (spec_strategy(content_byte_count, chunk_byte_count, supports_partial_content, thread_count)
            == Strategy::SingleChunk) <==> (content_byte_count <= chunk_byte_count
            || !supports_partial_content),
        (spec_strategy(content_byte_count, chunk_byte_count, supports_partial_content, thread_count)
            == Strategy::SequentialMultiChunk) <==> (content_byte_count > chunk_byte_count
            && supports_partial_content && thread_count <= 1),
        (spec_strategy(content_byte_count, chunk_byte_count, supports_partial_content, thread_count)
            == Strategy::ConcurrentMultiChunk) <==> (content_byte_count > chunk_byte_count
            && supports_partial_content && thread_count >= 2),
{
}

/// The output file path ends with the file name, and what comes before the
/// name is the directory followed by a `/`: the directory itself where it
/// already ends with a `/`, else the directory with one `/` added.
pub proof fn lemma_output_file_path_shape(directory: Seq<char>, file_name: Seq<char>)
    ensures
        ({
            let path = spec_output_file_path(directory, file_name);
            let before_name = path.subrange(0, path.len() - file_name.len());
            &&& path.len() >= file_name.len() + 1
            &&& path.subrange(path.len() - file_name.len(), path.len() as int) == file_name
            &&& before_name.last() == '/'
            &&& directory.len() > 0 && directory.last() == '/' ==> before_name == directory
            &&& !(directory.len() > 0 && directory.last() == '/') ==> before_name.len()
                == directory.len() + 1 && before_name.subrange(0, directory.len() as int)
                == directory
        }),
{
    let path = spec_output_file_path(directory, file_name);
    let before_name = path.subrange(0, path.len() - file_name.len());
    if directory.len() > 0 && directory.last() == '/' {
        assert(before_name =~= directory);
    } else {
        assert(before_name =~= directory.push('/'));
        assert(before_name.subrange(0, directory.len() as int) =~= directory);
    }
    assert(path.subrange(path.len() - file_name.len(), path.len() as int) =~= file_name);
}

/// The file name that the server suggests is the first file name parameter's
/// bytes decoded as UTF-8, unchanged: its UTF-8 encoding is those bytes, byte
/// for byte. Bytes that are not UTF-8 suggest no name.
pub proof fn lemma_suggested_name_is_first_file_name(
    params: Seq<DispositionParamView>,
    i: int,
    bytes: Seq<u8>,
)
    requires
        0 <= i < params.len(),
        params[i] == DispositionParamView::Filename(bytes),
        forall|j: int| 0 <= j < i ==> params[j] is Ext,
    ensures
        valid_utf8(bytes) ==> spec_suggested_file_name(params) == Some(decode_utf8(bytes)),
        valid_utf8(bytes) ==> encode_utf8(spec_suggested_file_name(params)->0) == bytes,
        !valid_utf8(bytes) ==> spec_suggested_file_name(params) is None,
    decreases i,
{
    if i > 0 {
        let rest = params.drop_first();
        assert(rest[i - 1] == params[i]);
        assert forall|j: int| 0 <= j < i - 1 implies rest[j] is Ext by {
            assert(rest[j] == params[j + 1]);
        }
        lemma_suggested_name_is_first_file_name(rest, i - 1, bytes);
        assert(params[0] is Ext);
    }
    if valid_utf8(bytes) {
        decode_utf8_encode_utf8(bytes);
    }
}

/// A task takes the suggested file name from the `Content-Disposition` header
/// when the header was sent and the HTTP library could read its parameters,
/// and has none otherwise.
pub proof fn lemma_disposition_file_name_source(raw: Option<Seq<Seq<u8>>>)
    ensures
        raw is None ==> spec_disposition_file_name(raw) is None,
        raw matches Some(lines) ==> (content_disposition_parameters(lines) is None
            ==> spec_disposition_file_name(raw) is None),
        raw matches Some(lines) ==> (content_disposition_parameters(lines) matches Some(params)
            ==> spec_disposition_file_name(raw) == spec_suggested_file_name(params)),
{
}

/// Without a file name parameter, the server suggests no name.
pub proof fn lemma_no_file_name_parameter(params: Seq<DispositionParamView>)
    requires
        forall|j: int| 0 <= j < params.len() ==> params[j] is Ext,
    ensures
        spec_suggested_file_name(params) is None,
    decreases params.len(),
{
    if params.len() > 0 {
        let rest = params.drop_first();
        assert forall|j: int| 0 <= j < rest.len() implies rest[j] is Ext by {
            assert(rest[j] == params[j + 1]);
        }
        lemma_no_file_name_parameter(rest);
    }
}

/// Whether `s` ends with a `/`.
fn ends_with_slash(s: &str) -> (ends: bool)
    ensures
        ends == (s@.len() > 0 && s@.last() == '/'),
{
    let length = s.unicode_len();
    length > 0 && s.get_char(length - 1) == '/'
}

} // verus!
