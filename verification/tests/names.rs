use chunkdl::filename::{content_disposition_filename, derive_output_name, sanitize_stem, split_path_stem_ext};
use chunkdl::staging::chunk_file_name;

#[test]
fn staging_names_follow_the_index() {
    assert_eq!(chunk_file_name(0), b"part0".to_vec());
    assert_eq!(chunk_file_name(7), b"part7".to_vec());
    assert_eq!(chunk_file_name(42), b"part42".to_vec());
    assert_eq!(chunk_file_name(u32::MAX), b"part4294967295".to_vec());
}

#[test]
fn staging_names_are_collision_free() {
    let mut names: Vec<Vec<u8>> = (0u32..100).map(chunk_file_name).collect();
    names.sort();
    names.dedup();
    assert_eq!(names.len(), 100);
}

#[test]
fn stem_is_percent_decoded_before_sanitising() {
    assert_eq!(sanitize_stem(&b"a%2Fb".to_vec()), b"a_b".to_vec());
    assert_eq!(sanitize_stem(&b"a%20b".to_vec()), b"a_b".to_vec());
    assert_eq!(sanitize_stem(&b"my-file%21".to_vec()), b"my-file".to_vec());
}

#[test]
fn stem_keeps_letters_digits_and_dashes() {
    assert_eq!(sanitize_stem(&b"Data-Set-01".to_vec()), b"Data-Set-01".to_vec());
    assert_eq!(sanitize_stem(&b"a b!c".to_vec()), b"a_b_c".to_vec());
}

#[test]
fn stem_trailing_underscores_trimmed() {
    assert_eq!(sanitize_stem(&b"name__".to_vec()), b"name".to_vec());
    assert_eq!(sanitize_stem(&b"name%20%20".to_vec()), b"name".to_vec());
    assert_eq!(sanitize_stem(&b"%20%20".to_vec()), b"".to_vec());
}

#[test]
fn malformed_escapes_pass_through() {
    assert_eq!(sanitize_stem(&b"a%zzb".to_vec()), b"a_zzb".to_vec());
    assert_eq!(sanitize_stem(&b"a%2".to_vec()), b"a_2".to_vec());
}

#[test]
fn output_name_from_stem_and_ext() {
    let name = derive_output_name(&b"report%202024".to_vec(), &b"example.com".to_vec(), &b"pdf".to_vec());
    assert_eq!(name, b"report_2024.pdf".to_vec());
}

#[test]
fn output_name_falls_back_to_host() {
    let name = derive_output_name(&b"%20".to_vec(), &b"files.example.com".to_vec(), &b"bin".to_vec());
    assert_eq!(name, b"files_example_com.bin".to_vec());
}

#[test]
fn content_disposition_names_the_file() {
    let r = content_disposition_filename(&b"attachment; filename=report.pdf".to_vec());
    assert_eq!(r, Some(b"report.pdf".to_vec()));
}

#[test]
fn content_disposition_first_match_wins() {
    let r = content_disposition_filename(&b"filename=a.txt; filename=b.txt".to_vec());
    assert_eq!(r, Some(b"a.txt".to_vec()));
}

#[test]
fn content_disposition_trims_blanks_around_the_parameter() {
    let r = content_disposition_filename(&b"inline;   filename=x y.bin  ".to_vec());
    assert_eq!(r, Some(b"x y.bin".to_vec()));
}

#[test]
fn content_disposition_without_filename() {
    assert_eq!(content_disposition_filename(&b"attachment".to_vec()), None);
    assert_eq!(content_disposition_filename(&b"".to_vec()), None);
    assert_eq!(
        content_disposition_filename(&b"attachment; name=field".to_vec()),
        None
    );
}

#[test]
fn path_split_names_stem_and_extension() {
    let r = split_path_stem_ext(&b"/files/archive.tar.gz".to_vec()).unwrap();
    assert_eq!(r.0, b"archive.tar".to_vec());
    assert_eq!(r.1, Some(b"gz".to_vec()));
}

#[test]
fn path_split_without_extension() {
    let r = split_path_stem_ext(&b"/files/readme".to_vec()).unwrap();
    assert_eq!(r.0, b"readme".to_vec());
    assert_eq!(r.1, None);
}

#[test]
fn path_split_hidden_file_keeps_leading_dot() {
    let r = split_path_stem_ext(&b"/home/.profile".to_vec()).unwrap();
    assert_eq!(r.0, b".profile".to_vec());
    assert_eq!(r.1, None);
}

#[test]
fn path_split_ignores_trailing_slashes() {
    let r = split_path_stem_ext(&b"/a/b/".to_vec()).unwrap();
    assert_eq!(r.0, b"b".to_vec());
    assert_eq!(r.1, None);
}

#[test]
fn path_split_of_bare_root_names_nothing() {
    assert_eq!(split_path_stem_ext(&b"/".to_vec()), None);
    assert_eq!(split_path_stem_ext(&b"".to_vec()), None);
}

#[test]
fn multibyte_characters_mask_to_one_underscore() {
    assert_eq!(sanitize_stem(&b"r%C3%A9sum%C3%A9".to_vec()), b"r_sum".to_vec());
    assert_eq!(sanitize_stem(&vec![97, 0xC3, 0xA9, 98]), b"a_b".to_vec());
    let name = derive_output_name(
        &b"r%C3%A9sum%C3%A9".to_vec(),
        &b"example.com".to_vec(),
        &b"pdf".to_vec(),
    );
    assert_eq!(name, b"r_sum.pdf".to_vec());
}

#[test]
fn invalid_utf8_masks_per_replacement_character() {
    assert_eq!(sanitize_stem(&vec![97, 0xFF, 98]), b"a_b".to_vec());
    assert_eq!(sanitize_stem(&vec![0xE2, 0x82, 0xAC, 0x31]), b"_1".to_vec());
}
