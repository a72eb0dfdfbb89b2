use macrdp::config::{
    bitmap_codecs, checks_password, default_filter, desktop_size, password_source,
    read_password_from_keychain, resolve_username, CodecProperty, ConfigError, Ip, PasswordSource,
};

#[test]
fn codecs_that_are_offered() {
    let codecs = bitmap_codecs();
    assert!(codecs.iter().all(|c| c.id == 0));
    let kinds: Vec<CodecProperty> = codecs.iter().map(|c| c.property).collect();
    assert_eq!(
        kinds,
        vec![
            CodecProperty::NsCodec {
                dynamic_fidelity: false,
                subsampling: false,
                color_loss_level: 3
            },
            CodecProperty::RemoteFx { server_container: 1 },
            CodecProperty::ImageRemoteFx { server_container: 1 },
            CodecProperty::Qoi,
            CodecProperty::QoiZ,
        ]
    );
}

#[test]
fn names_and_passwords() {
    assert_eq!(resolve_username(Some("a"), Some("b")), Ok("a".to_string()));
    assert_eq!(resolve_username(None, Some("b")), Ok("b".to_string()));
    assert_eq!(resolve_username(None, None), Err(ConfigError::NoUsername));
    assert_eq!(password_source(true, true), PasswordSource::Keychain);
    assert_eq!(password_source(false, true), PasswordSource::Argument);
    assert_eq!(password_source(false, false), PasswordSource::Prompt);
}

#[test]
fn the_keychains_answer() {
    let read = |b: &[u8]| read_password_from_keychain(true, b.to_vec());
    assert_eq!(read(b"secret\n"), Ok("secret".to_string()));
    assert_eq!(read(b"secret"), Ok("secret".to_string()));
    assert_eq!(read(b"two\n\n"), Ok("two\n".to_string()));
    assert_eq!(read("gr\u{fc}n\n".as_bytes()), Ok("gr\u{fc}n".to_string()));
    assert_eq!(read(b"\n"), Err(ConfigError::KeychainEmpty));
    assert_eq!(read(b""), Err(ConfigError::KeychainEmpty));
    assert_eq!(read(&[0xff, b'\n']), Err(ConfigError::KeychainNotUtf8));
    assert_eq!(
        read_password_from_keychain(false, b"secret\n".to_vec()),
        Err(ConfigError::KeychainNotFound)
    );
}

#[test]
fn the_check_is_skipped_on_loopback_only() {
    let any = Ip::V4(0, 0, 0, 0);
    assert_eq!(checks_password(false, any), Ok(true));
    assert_eq!(checks_password(true, any), Err(ConfigError::SkipAuthRefused));
    assert_eq!(checks_password(true, Ip::V4(127, 0, 0, 1)), Ok(false));
    assert_eq!(checks_password(true, Ip::V4(127, 9, 9, 9)), Ok(false));
    assert_eq!(checks_password(true, Ip::V6(1)), Ok(false));
    assert_eq!(checks_password(true, Ip::V6(0)), Err(ConfigError::SkipAuthRefused));
}

#[test]
fn sizes_and_filters() {
    assert_eq!(desktop_size(None, None, None), (1280, 720));
    assert_eq!(desktop_size(None, None, Some((1920, 1080))), (1920, 1080));
    assert_eq!(desktop_size(Some(800), None, Some((1920, 1080))), (800, 1080));
    assert_eq!(desktop_size(None, Some(600), None), (1280, 600));
    assert_eq!(default_filter(true), "debug");
    assert!(default_filter(false).starts_with("info,rustls=error,"));
}
