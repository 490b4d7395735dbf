use zst_compress::naming::{
    archive_name_of, classify, flag_name_of, manifest_name_of, source_name_of, Classification,
};

#[test]
fn classify_skips_tool_output_in_both_directions() {
    assert_eq!(classify("zst_compress", true), Classification::Skip);
    assert_eq!(classify("zst_extract", false), Classification::Skip);
}

#[test]
fn classify_skips_manifest_and_flag_in_both_directions() {
    for compress in [true, false] {
        assert_eq!(classify("dir_archived-filelist.txt", compress), Classification::Skip);
        assert_eq!(classify("dir_archived-message.txt", compress), Classification::Skip);
    }
}

#[test]
fn classify_archive_only_extracted() {
    assert_eq!(classify("dir.tar.zst", false), Classification::ExtractCandidate);
    assert_eq!(classify("dir.tar.zst", true), Classification::Skip);
}

#[test]
fn classify_plain_entry_only_compressed() {
    assert_eq!(classify("large.bin", true), Classification::CompressCandidate);
    assert_eq!(classify("large.bin", false), Classification::Skip);
    assert_eq!(classify("", true), Classification::CompressCandidate);
}

#[test]
fn classify_suffix_must_be_at_the_end() {
    assert_eq!(classify("a.tar.zst.bak", false), Classification::Skip);
    assert_eq!(classify("a.tar.zst.bak", true), Classification::CompressCandidate);
    assert_eq!(classify(".tar.zst", false), Classification::ExtractCandidate);
    assert_eq!(classify("my_zst_file", true), Classification::CompressCandidate);
}

#[test]
fn artifact_names_follow_the_source_name() {
    assert_eq!(archive_name_of("dir"), "dir.tar.zst");
    assert_eq!(manifest_name_of("dir"), "dir_archived-filelist.txt");
    assert_eq!(flag_name_of("large.bin"), "large.bin_archived-message.txt");
}

#[test]
fn artifacts_of_any_name_are_never_compressed_again() {
    for name in ["dir", "large.bin", "x.tar", ""] {
        assert_ne!(classify(&archive_name_of(name), true), Classification::CompressCandidate);
        assert_eq!(classify(&manifest_name_of(name), true), Classification::Skip);
        assert_eq!(classify(&manifest_name_of(name), false), Classification::Skip);
        assert_eq!(classify(&flag_name_of(name), true), Classification::Skip);
        assert_eq!(classify(&flag_name_of(name), false), Classification::Skip);
    }
}

#[test]
fn source_name_round_trip() {
    assert_eq!(source_name_of("dir.tar.zst"), "dir");
    assert_eq!(source_name_of(&archive_name_of("large.bin")), "large.bin");
    assert_eq!(source_name_of("a.tar.zst.tar.zst"), "a.tar.zst");
}
