use sanae::selfupdate::{check_download, install_steps, is_newer, DownloadError, VERSION};

#[test]
fn newer_compares_versions_not_strings() {
    assert!(is_newer("v99.0.0"));
    assert!(!is_newer("v0.0.1"));
    assert!(!is_newer(&format!("v{VERSION}")));
}

#[test]
fn versions_compare_by_number() {
    assert!(is_newer("v0.10.0"));
    assert!(is_newer("0.1.0.1"));
    assert!(!is_newer("0.1"));
    assert!(is_newer("vv0.2.0"));
    assert!(!is_newer("v0.x.9"));
}

#[test]
fn downloads_are_checked() {
    assert_eq!(check_download(&[0x7f, b'E', b'L', b'F']), Err(DownloadError::TooSmall(4)));
    let mut big = vec![0u8; 1024 * 1024];
    assert_eq!(check_download(&big), Err(DownloadError::NotElf));
    big[..4].copy_from_slice(b"\x7fELF");
    assert_eq!(check_download(&big), Ok(()));
    assert_eq!(
        DownloadError::TooSmall(12).message(),
        "the download is too small (12 bytes): not a Sanae binary"
    );
    assert_eq!(DownloadError::NotElf.message(), "the download is not an ELF binary");
}

#[test]
fn install_steps_put_the_binary_in_place() {
    let steps = install_steps("sudo", "/tmp/sanae-update", "/usr/local/bin/sanae");
    assert_eq!(steps.len(), 3);
    assert_eq!(steps[0].title, "Installing Sanae at /usr/local/bin/sanae");
    assert_eq!(steps[0].command_line(), "sudo install -m 755 /tmp/sanae-update /usr/local/bin/sanae");
    assert_eq!(steps[1].command_line(), "/usr/local/bin/sanae --version");
    assert_eq!(steps[2].command_line(), "rm -f /tmp/sanae-update");
}
