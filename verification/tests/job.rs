use dencrypt::engine::transform;
use dencrypt::job::{
    ArgsError, DencryptData, Dispatch, EntryKind, EXIT_COMPLETED, EXIT_INVALID_ARGUMENTS,
    HASH_ROUNDS,
};

fn job(path: &str, recursive: bool, key: &str, multithread: bool) -> DencryptData {
    DencryptData::new(String::from(path), recursive, String::from(key), multithread, true)
}

#[test]
fn new_keeps_every_parameter() {
    let data = DencryptData::new(String::from("dir/file"), true, String::from("k"), false, true);
    assert_eq!(data.path, "dir/file");
    assert!(data.is_recursive);
    assert_eq!(data.key, "k");
    assert!(!data.is_multithread);
    assert!(data.allow_output);
    let other = DencryptData::new(String::new(), false, String::new(), true, false);
    assert_eq!(other.path, "");
    assert!(!other.is_recursive);
    assert_eq!(other.key, "");
    assert!(other.is_multithread);
    assert!(!other.allow_output);
}

#[test]
fn std_ok_wants_a_path_and_a_key() {
    assert!(job("a", false, "k", false).std_ok());
    assert!(!job("", false, "k", false).std_ok());
    assert!(!job("a", false, "", false).std_ok());
    assert!(!job("", true, "", true).std_ok());
}

#[test]
fn missing_path_is_refused_first() {
    for kind in [EntryKind::File, EntryKind::Directory, EntryKind::Other] {
        assert_eq!(job("", false, "", true).handle_args_error(kind), Err(ArgsError::MissingPath));
        assert_eq!(job("", true, "k", false).handle_args_error(kind), Err(ArgsError::MissingPath));
    }
}

#[test]
fn missing_key_is_refused_after_the_path() {
    for kind in [EntryKind::File, EntryKind::Directory, EntryKind::Other] {
        assert_eq!(job("a", false, "", true).handle_args_error(kind), Err(ArgsError::MissingKey));
        assert_eq!(job("a", true, "", false).handle_args_error(kind), Err(ArgsError::MissingKey));
    }
}

#[test]
fn directory_without_recursive_flag_is_refused() {
    let data = job("dir", false, "k", false);
    assert_eq!(data.handle_args_error(EntryKind::Directory), Err(ArgsError::DirectoryWithoutRecursive));
    assert_eq!(data.dispatch(EntryKind::Directory), Err(ArgsError::DirectoryWithoutRecursive));
    let with_workers = job("dir", false, "k", true);
    assert_eq!(
        with_workers.handle_args_error(EntryKind::Directory),
        Err(ArgsError::DirectoryWithoutRecursive)
    );
}

#[test]
fn file_with_recursive_flag_is_refused() {
    let data = job("file", true, "k", false);
    assert_eq!(data.handle_args_error(EntryKind::File), Err(ArgsError::FileWithRecursive));
    assert_eq!(data.dispatch(EntryKind::File), Err(ArgsError::FileWithRecursive));
    let with_workers = job("file", true, "k", true);
    assert_eq!(with_workers.handle_args_error(EntryKind::File), Err(ArgsError::FileWithRecursive));
}

#[test]
fn workers_on_a_single_file_are_refused() {
    let data = job("file", false, "k", true);
    assert_eq!(data.handle_args_error(EntryKind::File), Err(ArgsError::MultithreadOnSingleFile));
    assert_eq!(data.handle_args_error(EntryKind::Other), Err(ArgsError::MultithreadOnSingleFile));
    assert_eq!(data.dispatch(EntryKind::File), Err(ArgsError::MultithreadOnSingleFile));
}

#[test]
fn workers_on_a_single_file_are_refused_when_output_is_off() {
    let data = DencryptData::new(String::from("file"), false, String::from("k"), true, false);
    assert_eq!(data.handle_args_error(EntryKind::File), Err(ArgsError::MultithreadOnSingleFile));
}

#[test]
fn valid_jobs_pass_and_are_dispatched() {
    let single = job("file", false, "k", false);
    assert_eq!(single.handle_args_error(EntryKind::File), Ok(()));
    assert_eq!(single.dispatch(EntryKind::File), Ok(Dispatch::SingleFile));
    assert_eq!(single.dispatch(EntryKind::Other), Ok(Dispatch::SingleFile));

    let walk = job("dir", true, "k", false);
    assert_eq!(walk.handle_args_error(EntryKind::Directory), Ok(()));
    assert_eq!(walk.dispatch(EntryKind::Directory), Ok(Dispatch::WalkSequential));
    assert_eq!(walk.dispatch(EntryKind::Other), Ok(Dispatch::WalkSequential));

    let workers = job("dir", true, "k", true);
    assert_eq!(workers.handle_args_error(EntryKind::Directory), Ok(()));
    assert_eq!(workers.dispatch(EntryKind::Directory), Ok(Dispatch::WalkConcurrent));
}

#[test]
fn output_flag_plays_no_part_in_validation() {
    for kind in [EntryKind::File, EntryKind::Directory, EntryKind::Other] {
        for recursive in [false, true] {
            for multithread in [false, true] {
                let loud = DencryptData::new(String::from("p"), recursive, String::from("k"), multithread, true);
                let quiet = DencryptData::new(String::from("p"), recursive, String::from("k"), multithread, false);
                assert_eq!(loud.dispatch(kind), quiet.dispatch(kind));
            }
        }
    }
}

#[test]
fn every_refusal_has_its_guidance() {
    assert_eq!(
        ArgsError::MissingPath.message(),
        "Missing specific path\nAdd option \"--pathh=<path>\""
    );
    assert_eq!(ArgsError::MissingKey.message(), "Missing specific key\nAdd option \"--key=<key>\"");
    assert_eq!(
        ArgsError::DirectoryWithoutRecursive.message(),
        "The given path is a directory, add option \"--rec\""
    );
    assert_eq!(
        ArgsError::FileWithRecursive.message(),
        "The given path is a file, remove option \"--rec\""
    );
    assert_eq!(
        ArgsError::MultithreadOnSingleFile.message(),
        "The given path is a file, cannot enable mutltithread mode, remove option \"--multithread\""
    );
}

#[test]
fn exit_statuses() {
    assert_eq!(EXIT_COMPLETED, 0);
    assert_eq!(EXIT_INVALID_ARGUMENTS, 1);
    assert_eq!(HASH_ROUNDS, 3);
}

#[test]
fn dencrypt_uses_the_digest_of_the_passphrase_as_keystream() {
    let data = job("file", false, "ab", false);
    // The digest of "ab" starts with the digits 1, 8, 7.
    assert_eq!(data.dencrypt(&[0x41, 0x42, 0x43]), vec![0x41 ^ 0x31, 0x42 ^ 0x38, 0x43 ^ 0x37]);
    assert_eq!(data.dencrypt(&[0x41, 0x42, 0x43]), vec![0x70, 0x7a, 0x74]);
    let long: Vec<u8> = (0..100u8).collect();
    assert_eq!(
        data.dencrypt(&long),
        transform(&long, b"187ef4436122d1cc2f40dc2b92f0eba0").unwrap()
    );
}

#[test]
fn dencrypt_twice_restores_the_data() {
    let data: Vec<u8> = (0..=255u8).rev().collect();
    for key in ["", "a", "ab", "a longer passphrase", "cl\u{e9}"] {
        let run = job("file", false, key, false);
        let once = run.dencrypt(&data);
        assert_eq!(once.len(), data.len());
        assert_ne!(once, data);
        assert_eq!(run.dencrypt(&once), data);
    }
}

#[test]
fn dencrypt_works_with_an_empty_passphrase() {
    let run = job("file", false, "", false);
    assert_eq!(run.dencrypt(&[0]), vec![b'd']);
    assert_eq!(run.dencrypt(&[]), Vec::<u8>::new());
}
