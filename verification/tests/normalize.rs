use stow::error::StowError;
use stow::normalize::{streamline, streamline_item, streamline_item_sep, streamline_sep};

#[test]
fn test_streamline_basic() {
    assert_eq!(streamline("container-1"), "container-1");
    assert_eq!(streamline("Container-1"), "container-1");
    assert_eq!(streamline(" My Container! "), "mycontainer");
    assert_eq!(streamline("A B C 1 2 3"), "abc123");
}

#[test]
fn test_streamline_strips_one_leading_separator() {
    assert_eq!(streamline("-abc"), "abc");
    assert_eq!(streamline("--abc"), "-abc");
    assert_eq!(streamline("abc-"), "abc-");
}

#[test]
fn test_streamline_empty_after_filtering() {
    assert_eq!(streamline(""), "");
    assert_eq!(streamline("!!! ???"), "");
    assert_eq!(streamline("-"), "");
}

#[test]
fn test_streamline_idempotent() {
    for raw in ["Container-1", " My Container! ", "-abc", "A.B.C", ""] {
        let once = streamline(raw);
        let twice = streamline(&once);
        assert_eq!(twice, once);
    }
}

#[test]
fn test_streamline_separator_parameter() {
    assert_eq!(streamline_sep("my_bucket", '_'), "my_bucket");
    assert_eq!(streamline_sep("my_bucket", '-'), "mybucket");
    assert_eq!(streamline_sep("my-dir", '_'), "mydir");
}

#[test]
fn test_streamline_item_requires_suffix() {
    assert_eq!(streamline_item("noext"), Err(StowError::ItemTypMissing));
    assert_eq!(streamline_item(""), Err(StowError::ItemTypMissing));
    assert_eq!(streamline_item("test.txt"), Ok(String::from("test.txt")));
    assert_eq!(streamline_item("Test.TXT"), Ok(String::from("test.txt")));
}

#[test]
fn test_streamline_item_splits_at_first_dot() {
    assert_eq!(
        streamline_item("My File.V1.TXT"),
        Ok(String::from("myfile.v1.txt"))
    );
    assert_eq!(streamline_item(".hidden"), Ok(String::from(".hidden")));
}

#[test]
fn test_streamline_item_suffix_is_not_filtered() {
    // the base goes through the character filter, the suffix is only
    // lower-cased
    assert_eq!(streamline_item("A B!.T X?"), Ok(String::from("ab.t x?")));
}

#[test]
fn test_streamline_item_idempotent() {
    for raw in ["Test.TXT", "My File.V1.TXT", "-a.txt", ".hidden"] {
        let once = streamline_item(raw).unwrap();
        let twice = streamline_item(&once).unwrap();
        assert_eq!(twice, once);
    }
    let once = streamline_item_sep("my_file.bin", '_').unwrap();
    assert_eq!(once, "my_file.bin");
    assert_eq!(streamline_item_sep(&once, '_').unwrap(), once);
}

#[test]
fn test_error_messages() {
    assert_eq!(
        StowError::ItemTypMissing.message(),
        "The Item name need a item/file type"
    );
    assert_eq!(
        StowError::ContainerCreationError.message(),
        "The Container cloud not be created"
    );
    assert_eq!(
        StowError::ListContainerError.message(),
        "Listing of the containers failed"
    );
    assert_eq!(StowError::Disconnect.message(), "IO operation failed");
    assert_eq!(StowError::Unknown.message(), "Unknown stow error");
}
