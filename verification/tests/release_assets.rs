use miawk::codex::unpack_release_asset;

fn tar_gz(entries: &[(&str, &[u8])]) -> Vec<u8> {
    let encoder = flate2::write::GzEncoder::new(Vec::new(), flate2::Compression::default());
    let mut builder = tar::Builder::new(encoder);
    for (name, data) in entries {
        let mut header = tar::Header::new_gnu();
        header.set_size(data.len() as u64);
        header.set_mode(0o755);
        header.set_cksum();
        builder.append_data(&mut header, name, *data).unwrap();
    }
    builder.into_inner().unwrap().finish().unwrap()
}

#[test]
fn tar_gz_assets_give_their_first_entry() {
    let bytes = tar_gz(&[("codex", b"binary one"), ("README", b"text")]);
    assert_eq!(
        unpack_release_asset("codex-x86_64-unknown-linux-gnu.tar.gz", bytes),
        Ok(b"binary one".to_vec())
    );
}

#[test]
fn other_assets_are_the_binary() {
    let bytes = b"MZ raw exe".to_vec();
    assert_eq!(unpack_release_asset("codex-x86_64-pc-windows-msvc.exe", bytes.clone()), Ok(bytes));
}

#[test]
fn empty_archives_are_refused() {
    let bytes = tar_gz(&[]);
    assert_eq!(
        unpack_release_asset("codex.tar.gz", bytes),
        Err("Codex archive codex.tar.gz was empty".to_string())
    );
}

#[test]
fn broken_archives_report_the_error() {
    assert!(unpack_release_asset("codex.tar.gz", b"not gzip".to_vec()).is_err());
}
