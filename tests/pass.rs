use pass_secret_service::bigendian::to_fixed_be;
use pass_secret_service::error::{Error, OptionNoneNotFound};
use pass_secret_service::gpg::{clear_passphrase_args, gpg_id_search_dirs, parse_gpg_id, parse_keygrips, union_recipients};
use pass_secret_service::meta::{secret_ids_from_listing, time_to_int, FileTime};
use pass_secret_service::pass::{get_collection_dir, get_secret_path, parse_octal, store_directory, PasswordStore};

fn s(v: &[&str]) -> Vec<String> {
    v.iter().map(|x| x.to_string()).collect()
}

#[test]
fn umask_gives_modes() {
    let p = PasswordStore::new("/home/u/.password-store".to_string(), None, None);
    assert_eq!(p.dir_mode(), 0o700);
    assert_eq!(p.file_mode(), 0o600);
    let p = PasswordStore::new("/s".to_string(), None, Some("022"));
    assert_eq!(p.dir_mode(), 0o755);
    assert_eq!(p.file_mode(), 0o644);
    let p = PasswordStore::new("/s".to_string(), None, Some("9x"));
    assert_eq!(p.dir_mode(), 0o700);
}

#[test]
fn octal_parsing() {
    assert_eq!(parse_octal("077"), Some(0o77));
    assert_eq!(parse_octal("+7"), Some(7));
    assert_eq!(parse_octal(""), None);
    assert_eq!(parse_octal("+"), None);
    assert_eq!(parse_octal("8"), None);
    assert_eq!(parse_octal("37777777777"), Some(u32::MAX));
    assert_eq!(parse_octal("40000000000"), None);
}

#[test]
fn store_directory_priority() {
    assert_eq!(store_directory(Some("/a".to_string()), Some("/b".to_string()), Some("/h".to_string())), Some("/a".to_string()));
    assert_eq!(store_directory(None, Some("/b".to_string()), Some("/h".to_string())), Some("/b".to_string()));
    assert_eq!(store_directory(None, None, Some("/h".to_string())), Some("/h/.password-store".to_string()));
    assert_eq!(store_directory(None, None, Some("/h/".to_string())), Some("/h/.password-store".to_string()));
    assert_eq!(store_directory(None, None, None), None);
}

#[test]
fn secret_paths() {
    let p = PasswordStore::new("/root/store".to_string(), None, None);
    let rel = get_secret_path("default_ab12", "Q1w2E3r4");
    assert_eq!(rel, "secret-service/default_ab12/Q1w2E3r4");
    assert_eq!(p.get_full_secret_path(&rel), "/root/store/secret-service/default_ab12/Q1w2E3r4.gpg");
    assert_eq!(p.get_full_secret_path("x/y.gpg"), "/root/store/x/y.gpg");
    assert_eq!(get_collection_dir("c1"), "secret-service/c1");
}

#[test]
fn gpg_arguments() {
    let p = PasswordStore::new("/s".to_string(), Some("  --quiet\t--yes ".to_string()), None);
    assert_eq!(p.gpg_opts_args(), s(&["--quiet", "--yes"]));
    assert_eq!(p.decrypt_args(true), s(&["--quiet", "--yes", "--decrypt", "-"]));
    assert_eq!(p.decrypt_args(false), s(&["--quiet", "--yes", "--pinentry-mode=error", "--decrypt", "-"]));
    assert_eq!(
        p.encrypt_args(&s(&["A1", "B2"])),
        s(&["--quiet", "--yes", "--encrypt", "--recipient=A1", "--recipient=B2"])
    );
    let bare = PasswordStore::new("/s".to_string(), None, None);
    assert_eq!(
        bare.list_key_args(&s(&["A1"])),
        s(&["--batch", "--with-colons", "--with-keygrip", "--list-key", "A1"])
    );
}

#[test]
fn gpg_id_lines() {
    assert_eq!(parse_gpg_id("ABCDEF\n\n  me@example.org \r\n"), s(&["ABCDEF", "me@example.org"]));
    assert_eq!(parse_gpg_id(""), Vec::<String>::new());
}

#[test]
fn gpg_id_search_order() {
    assert_eq!(gpg_id_search_dirs("secret-service/coll"), s(&["secret-service/coll", "secret-service", ""]));
    assert_eq!(gpg_id_search_dirs(""), s(&[""]));
}

#[test]
fn recipients_union() {
    assert_eq!(union_recipients(&vec![s(&["a", "b"]), s(&["b", "c"]), s(&[])]), s(&["a", "b", "c"]));
}

#[test]
fn keygrips_of_encryption_keys() {
    let listing = "tru::1:1700000000:0:3:1:5\n\
pub:u:255:22:AAAA1111:1700000000:::u:::scESC:::::ed25519:::0:\n\
fpr:::::::::FPRPUB:\n\
grp:::::::::GRIPPUB:\n\
sub:u:255:18:BBBB2222:1700000000::::::e:::::cv25519::\n\
fpr:::::::::FPRSUB:\n\
grp:::::::::GRIPSUB:\n\
uid:u::::1700000000::HASH::Someone <s@example.org>::::::::::0:\n";
    assert_eq!(parse_keygrips(listing), s(&["GRIPSUB"]));
    let enc_primary = "pub:u:2048:1:CCCC:1::::::e:\ngrp:::::::::G1:\n";
    assert_eq!(parse_keygrips(enc_primary), s(&["G1"]));
    assert_eq!(clear_passphrase_args("GRIPSUB"), s(&["clear_passphrase --mode=normal GRIPSUB", "/bye"]));
}

#[test]
fn file_times() {
    assert_eq!(time_to_int(FileTime::BeforeEpoch), 0);
    assert_eq!(time_to_int(FileTime::Unsupported), 0);
    assert_eq!(time_to_int(FileTime::SinceEpoch(1_700_000_000)), 1_700_000_000);
}

#[test]
fn listing_keeps_gpg_files() {
    let entries = vec![
        (true, "abc.gpg".to_string()),
        (false, "dir.gpg".to_string()),
        (true, "attributes.redb".to_string()),
        (true, "x.GPG".to_string()),
        (true, "q1.gpg".to_string()),
    ];
    assert_eq!(secret_ids_from_listing(&entries), s(&["abc", "q1"]));
}

#[test]
fn fixed_width_big_endian() {
    assert_eq!(to_fixed_be(&[1, 2], 4), vec![0, 0, 1, 2]);
    assert_eq!(to_fixed_be(&[0, 0, 9, 8], 2), vec![9, 8]);
    assert_eq!(to_fixed_be(&[], 1), vec![0]);
}

#[test]
fn error_names() {
    assert_eq!(Error::not_found().name(), "org.freedesktop.Secret.Error.NoSuchObject");
    assert_eq!(Error::IoError { not_found: false, message: "x".to_string() }.name(), "org.freedesktop.DBus.Error.IOError");
    assert_eq!(Error::DbusError("x".to_string()).name(), "org.freedesktop.zbus.Error");
    assert_eq!(Error::RedbError("x".to_string()).name(), "me.grimsteel.PassSecretService.ReDBError");
    assert_eq!(Error::GpgError("bad".to_string()).name(), "me.grimsteel.PassSecretService.GPGError");
    assert_eq!(Error::GpgError("bad".to_string()).description(), Some("bad".to_string()));
    assert_eq!(Error::NotInitialized.name(), "me.grimsteel.PassSecretService.PassNotInitialized");
    assert_eq!(Error::InvalidSession.name(), "org.freedesktop.Secret.Error.NoSession");
    assert_eq!(Error::PermissionDenied.name(), "org.freedesktop.DBus.Error.AccessDenied");
    assert_eq!(Error::PermissionDenied.description(), None);
}

#[test]
fn random_ids_use_the_alphabet() {
    let id = pass_secret_service::ids::new_id(8);
    assert_eq!(id.chars().count(), 8);
    assert!(id.chars().all(|c| c.is_ascii_alphanumeric() || c == '_'));
    let other = pass_secret_service::ids::new_id(8);
    assert_eq!(other.len(), 8);
    assert_eq!(pass_secret_service::ids::nanoid_alphabet().len(), 63);
}

#[test]
fn store_from_environment() {
    let p = PasswordStore::from_env(None, None, Some("/home/u".to_string()), Some("--yes".to_string()), Some("027".to_string())).unwrap();
    assert_eq!(p.directory, "/home/u/.password-store");
    assert_eq!(p.dir_mode(), 0o750);
    assert_eq!(p.file_mode(), 0o640);
    assert_eq!(p.gpg_opts_args(), s(&["--yes"]));
    assert!(PasswordStore::from_env(None, None, None, None, None).is_none());
}

#[test]
fn missing_values_are_not_found() {
    assert_eq!(Some(3).into_not_found().unwrap(), 3);
    let e = None::<u8>.into_not_found().unwrap_err();
    assert_eq!(e.name(), "org.freedesktop.Secret.Error.NoSuchObject");
}
