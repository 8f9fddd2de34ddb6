//! The job descriptor: what one run is asked to do, and the keystream that
//! its passphrase gives.

use vstd::prelude::*;
use vstd::string::*;
use vstd::utf8::encode_utf8;
use crate::digest::{hex_text, lemma_hex_text_bytes, md5_digest, md5_hex};
use crate::engine::{dencrypt_bytes, lemma_xor_stream_twice, xor_stream};

verus! {

/// What a path names on disk.
#[derive(Clone, Copy, Debug, PartialEq, Eq, Structural)]
pub enum EntryKind {
    /// A regular file.
    File,
    /// A directory.
    Directory,
    /// Anything else: a device, a socket, a FIFO, a link that leads nowhere.
    Other,
}

/// Why a job descriptor is refused before any file is touched.
#[derive(Clone, Copy, Debug, PartialEq, Eq, Structural)]
pub enum ArgsError {
    /// No target path was given.
    MissingPath,
    /// No passphrase was given.
    MissingKey,
    /// The target is a directory and a recursive run was not asked for.
    DirectoryWithoutRecursive,
    /// The target is a file and a recursive run was asked for.
    FileWithRecursive,
    /// Concurrent workers were asked for on a single file.
    MultithreadOnSingleFile,
}

/// What a job that passed validation does.
#[derive(Clone, Copy, Debug, PartialEq, Eq, Structural)]
pub enum Dispatch {
    /// Transform the target itself, in place.
    SingleFile,
    /// Walk the target and transform its files one after another.
    WalkSequential,
    /// Walk the target, hand every file to a worker of its own and wait for
    /// all of them.
    WalkConcurrent,
}

/// The status with which a run ends when its arguments are refused.
pub const EXIT_INVALID_ARGUMENTS: i32 = 1;

/// The status with which a run ends that went through.
pub const EXIT_COMPLETED: i32 = 0;

/// The first rule that the job breaks, if it breaks one. The rules are tried
/// in this order: a path is given; a key is given; a directory is walked
/// recursively; a file is not; workers are only asked for on a walk.
pub open spec fn args_error(data: DencryptData, target: EntryKind) -> Option<ArgsError> {
    if data.path@.len() == 0 {
        Some(ArgsError::MissingPath)
    } else if data.key@.len() == 0 {
        Some(ArgsError::MissingKey)
    } else if target is Directory && !data.is_recursive {
        Some(ArgsError::DirectoryWithoutRecursive)
    } else if target is File && data.is_recursive {
        Some(ArgsError::FileWithRecursive)
    } else if data.is_multithread && !data.is_recursive {
        Some(ArgsError::MultithreadOnSingleFile)
    } else {
        None
    }
}

/// What a job does once it is valid: a walk where one was asked for, with
/// workers where they were asked for, and the target itself otherwise.
pub open spec fn dispatch_of(data: DencryptData) -> Dispatch {
    if !data.is_recursive {
        Dispatch::SingleFile
    } else if data.is_multithread {
        Dispatch::WalkConcurrent
    } else {
        Dispatch::WalkSequential
    }
}

/// The parameters of one run.
#[derive(Debug, Clone)]
pub struct DencryptData {
    /// The file or directory to work on; empty while none was given.
    pub path: String,
    /// Whether the target is a directory to be walked.
    pub is_recursive: bool,
    /// The passphrase; empty while none was given.
    pub key: String,
    /// Whether the files of a directory are handed to concurrent workers.
    pub is_multithread: bool,
    /// Whether progress is reported; it has no effect on any byte.
    pub allow_output: bool,
}

/// How often the passphrase is said to be digested. The count is kept for the
/// callers that pass it and changes nothing: see [`hash_key`].
pub const HASH_ROUNDS: u8 = 3;

/// The text that a passphrase is turned into before it serves as a key: the
/// hexadecimal MD5 digest of its UTF-8 bytes.
pub open spec fn key_text(passphrase: Seq<char>) -> Seq<char> {
    hex_text(md5_digest(encode_utf8(passphrase)))
}

/// The keystream of a passphrase: the bytes of [`key_text`].
pub open spec fn keystream_of(passphrase: Seq<char>) -> Seq<u8> {
    encode_utf8(key_text(passphrase))
}

impl ArgsError {
    /// The text of the guidance that goes with the refusal.
    pub open spec fn message_text(self) -> Seq<char> {
        match self {
            ArgsError::MissingPath => "Missing specific path\nAdd option \"--pathh=<path>\""@,
            ArgsError::MissingKey => "Missing specific key\nAdd option \"--key=<key>\""@,
            ArgsError::DirectoryWithoutRecursive => "The given path is a directory, add option \"--rec\""@,
            ArgsError::FileWithRecursive => "The given path is a file, remove option \"--rec\""@,
            ArgsError::MultithreadOnSingleFile => "The given path is a file, cannot enable mutltithread mode, remove option \"--multithread\""@,
        }
    }

    /// The guidance that goes with the refusal: what is wrong and which
    /// option mends it.
    pub fn message(&self) -> (text: String)
        ensures
            text@ == self.message_text(),
    {
        match self {
            ArgsError::MissingPath => "Missing specific path\nAdd option \"--pathh=<path>\"".to_owned(),
            ArgsError::MissingKey => "Missing specific key\nAdd option \"--key=<key>\"".to_owned(),
            ArgsError::DirectoryWithoutRecursive => "The given path is a directory, add option \"--rec\"".to_owned(),
            ArgsError::FileWithRecursive => "The given path is a file, remove option \"--rec\"".to_owned(),
            ArgsError::MultithreadOnSingleFile => "The given path is a file, cannot enable mutltithread mode, remove option \"--multithread\"".to_owned(),
        }
    }
}

impl DencryptData {
    /// A job descriptor with exactly the given parameters.
    pub fn new(
        path: String,
        is_recursive: bool,
        key: String,
        is_multithread: bool,
        allow_output: bool,
    ) -> (data: Self)
        ensures
            data.path == path,
            data.is_recursive == is_recursive,
            data.key == key,
            data.is_multithread == is_multithread,
            data.allow_output == allow_output,
    {
        Self { path, is_recursive, key, is_multithread, allow_output }
    }

    /// Whether both a target and a passphrase were given.
    pub fn std_ok(&self) -> (ok: bool)
        ensures
            ok == (self.path@.len() > 0 && self.key@.len() > 0),
    {
        !self.path.as_str().is_empty() && !self.key.as_str().is_empty()
    }

    /// Checks the job against what `target` was found to be on disk.
    ///
    /// Fails with `args_error(self, target)` where that names a broken rule,
    /// and passes otherwise. While the path or the key is missing, `target`
    /// is not looked at, so a caller need not probe the disk for it.
    pub fn handle_args_error(&self, target: EntryKind) -> (checked: Result<(), ArgsError>)
        ensures
            checked == match args_error(*self, target) {
                Some(error) => Err::<(), ArgsError>(error),
                None => Ok::<(), ArgsError>(()),
            },
    {
        if self.path.as_str().is_empty() {
            return Err(ArgsError::MissingPath);
        }
        if self.key.as_str().is_empty() {
            return Err(ArgsError::MissingKey);
        }
        match target {
            EntryKind::Directory => {
                if !self.is_recursive {
                    return Err(ArgsError::DirectoryWithoutRecursive);
                }
            },
            EntryKind::File => {
                if self.is_recursive {
                    return Err(ArgsError::FileWithRecursive);
                }
            },
            EntryKind::Other => {},
        }
        if self.is_multithread && !self.is_recursive {
            return Err(ArgsError::MultithreadOnSingleFile);
        }
        Ok(())
    }

    /// Transforms the contents of one file with the keystream of the job's
    /// passphrase. The keystream holds the thirty-two digits of the key,
    /// whatever the passphrase, an empty one too, so this cannot fail.
    pub fn dencrypt(&self, data: &[u8]) -> (bytes: Vec<u8>)
        ensures
            bytes@ == xor_stream(data@, keystream_of(self.key@)),
            keystream_of(self.key@).len() == 32,
    {
        let key: String = hash_key(self, HASH_ROUNDS);
        proof {
            lemma_hex_text_bytes(md5_digest(encode_utf8(self.key@)));
        }
        match dencrypt_bytes(data, key.as_str()) {
            Ok(bytes) => bytes,
            Err(_) => Vec::new(),
        }
    }

    /// Decides what the run does, or refuses it: nothing is dispatched for a
    /// job that breaks a rule.
    pub fn dispatch(&self, target: EntryKind) -> (decision: Result<Dispatch, ArgsError>)
        ensures
            decision == match args_error(*self, target) {
                Some(error) => Err::<Dispatch, ArgsError>(error),
                None => Ok::<Dispatch, ArgsError>(dispatch_of(*self)),
            },
    {
        match self.handle_args_error(target) {
            Err(error) => Err(error),
            Ok(()) => {
                if !self.is_recursive {
                    Ok(Dispatch::SingleFile)
                } else if self.is_multithread {
                    Ok(Dispatch::WalkConcurrent)
                } else {
                    Ok(Dispatch::WalkSequential)
                }
            },
        }
    }
}

/// The key that the passphrase of `dencrypt_data` gives: its MD5 digest as
/// thirty-two hexadecimal digits.
///
/// `time` asks for that many rounds, but every round digests the passphrase
/// itself and replaces the result of the round before, so the count has no
/// effect: the result is the one-shot digest for every `time`. This is kept
/// as it is, since a key that depended on the count would no longer open
/// what was closed before.
pub fn hash_key(dencrypt_data: &DencryptData, time: u8) -> (key: String)
    ensures
        key@ == key_text(dencrypt_data.key@),
        key@.len() == 32,
{
    let passphrase: &[u8] = dencrypt_data.key.as_str().as_bytes();
    let mut key: String = md5_hex(passphrase);
    let mut round: u8 = 1;
    while round < time
        invariant
            passphrase@ == encode_utf8(dencrypt_data.key@),
            key@ == key_text(dencrypt_data.key@),
            key@.len() == 32,
        decreases time - round,
    {
        key = md5_hex(passphrase);
        round += 1;
    }
    key
}

/// Validation gating: a directory is never worked on without the recursive
/// flag, and a file never with it. Whatever else the job says, such a job is
/// refused, so nothing is dispatched for it; where a path and a key are
/// given, the refusal names the mismatch.
pub proof fn lemma_mismatch_is_refused(data: DencryptData)
    ensures
        !data.is_recursive ==> args_error(data, EntryKind::Directory) is Some,
        data.is_recursive ==> args_error(data, EntryKind::File) is Some,
        !data.is_recursive && data.path@.len() > 0 && data.key@.len() > 0 ==> args_error(
            data,
            EntryKind::Directory,
        ) == Some(ArgsError::DirectoryWithoutRecursive),
        data.is_recursive && data.path@.len() > 0 && data.key@.len() > 0 ==> args_error(
            data,
            EntryKind::File,
        ) == Some(ArgsError::FileWithRecursive),
{
}

/// A second run restores what the first one changed: for every passphrase
/// and all data, transforming the transformed data with the keystream of the
/// same passphrase gives the data back.
pub proof fn lemma_dencrypt_twice_restores(passphrase: Seq<char>, data: Seq<u8>)
    ensures
        xor_stream(xor_stream(data, keystream_of(passphrase)), keystream_of(passphrase)) == data,
{
    lemma_xor_stream_twice(data, keystream_of(passphrase));
}

} // verus!
