use pbuild::download::{extraction, file_name, infer_format, kept_components, Extraction};
use pbuild::types::Download;

#[test]
fn infer_format_from_url() {
    assert_eq!(infer_format("https://example.com/foo.tar.gz"), "tar.gz");
    assert_eq!(infer_format("https://example.com/foo.tgz"), "tar.gz");
    assert_eq!(infer_format("https://example.com/foo.tar"), "tar");
    assert_eq!(infer_format("https://example.com/foo.zip"), "zip");
    assert_eq!(infer_format("https://example.com/foo.bin"), "none");
    assert_eq!(
        infer_format("https://example.com/foo.tar.gz?token=abc"),
        "tar.gz"
    );
}

#[test]
fn infer_format_other_archives_and_fragments() {
    assert_eq!(infer_format("https://example.com/a.tar.xz"), "tar.xz");
    assert_eq!(infer_format("https://example.com/a.txz#frag"), "tar.xz");
    assert_eq!(infer_format("https://example.com/a.tar.bz2"), "tar.bz2");
    assert_eq!(infer_format("https://example.com/a.tbz2?x=1#y"), "tar.bz2");
    assert_eq!(infer_format("https://example.com/a.zip#x.tar"), "zip");
    assert_eq!(infer_format("https://example.com/a.bin?f=b.tar.gz"), "none");
}

fn dl(url: &str, extract: Option<&str>) -> Download {
    Download {
        url: url.to_string(),
        dest: "out".to_string(),
        extract: extract.map(|s| s.to_string()),
        strip: 0,
    }
}

#[test]
fn raw_download_keeps_url_file_name() {
    assert_eq!(file_name("https://example.com/dir/tool.bin"), "tool.bin");
    assert_eq!(file_name("no-slash"), "no-slash");
    assert_eq!(file_name("https://example.com/dir/"), "");
    match extraction(&dl("https://example.com/dir/tool.bin", None)).unwrap() {
        Extraction::Raw(name) => assert_eq!(name, "tool.bin"),
        _ => panic!("expected a raw download"),
    }
}

#[test]
fn archive_formats_choose_extraction() {
    assert!(matches!(extraction(&dl("https://x/a.tgz", None)), Ok(Extraction::TarGz)));
    assert!(matches!(extraction(&dl("https://x/a.bin", Some("tar"))), Ok(Extraction::Tar)));
    assert!(matches!(extraction(&dl("https://x/a.tar", Some("tgz"))), Ok(Extraction::TarGz)));
}

#[test]
fn unsupported_formats_are_errors() {
    assert_eq!(
        extraction(&dl("https://x/a.tar.xz", None)).err().unwrap(),
        "tar.xz extraction not yet supported — use tar.gz"
    );
    assert_eq!(
        extraction(&dl("https://x/a", Some("tbz2"))).err().unwrap(),
        "tar.bz2 extraction not yet supported — use tar.gz"
    );
    assert_eq!(
        extraction(&dl("https://x/a.zip", None)).err().unwrap(),
        "unsupported archive format: zip"
    );
}

#[test]
fn strip_components_skips_short_paths() {
    assert_eq!(kept_components(1, 1), None);
    assert_eq!(kept_components(3, 1), Some(1));
    assert_eq!(kept_components(2, 0), Some(0));
    assert_eq!(kept_components(0, 0), None);
}
