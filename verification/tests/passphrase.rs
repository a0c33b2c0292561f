use portfolio::cipher::{decrypt, encrypt};
use portfolio::passphrase::{
    decipher, derive_key, key_from, normalize, strip_padding, ProfileDataList,
};
use portfolio::route::AppRoute;
use sha3::Digest;

fn hex(bytes: &[u8]) -> String {
    let mut out = String::new();
    for b in bytes {
        out.push_str(&format!("{:02x}", b));
    }
    out
}

#[test]
fn a_name_is_reduced_to_its_hiragana() {
    assert_eq!(normalize("\u{3084}\u{307e}\u{3060} \u{305f}\u{308d}\u{3046}"), "\u{3084}\u{307e}\u{3060}\u{305f}\u{308d}\u{3046}");
    assert_eq!(normalize("Yamada \u{305f}\u{308d}\u{3046}!"), "\u{305f}\u{308d}\u{3046}");
    assert_eq!(normalize("abc 123"), "");
    assert_eq!(normalize(""), "");
    assert_eq!(normalize("\u{3041}\u{3096}"), "\u{3041}\u{3096}");
    assert_eq!(normalize("\u{3040}\u{3097}\u{30a2}\u{4e00}"), "");
}

#[test]
fn reducing_agrees_with_the_pattern() {
    let pattern = regex::Regex::new("[^\u{3041}-\u{3096}]").unwrap();
    let samples = [
        "",
        "\u{3042}\u{3044}\u{3046}",
        "a\u{3042}b\u{3044}c",
        "\u{30a2}\u{3042}\u{ff71}",
        "\u{3040}\u{3041}\u{3096}\u{3097}",
        "  \u{3055}\u{304f}\u{3089}\n",
        "\u{1f600}\u{3093}",
    ];
    for sample in samples {
        assert_eq!(normalize(sample), pattern.replace_all(sample, ""), "{:?}", sample);
    }
}

#[test]
fn reducing_twice_changes_nothing_more() {
    let once = normalize("a\u{3042}b\u{3044}c");
    assert_eq!(normalize(&once), once);
}

#[test]
fn the_key_is_the_digest_of_the_reduced_name() {
    assert_eq!(
        hex(&derive_key("")),
        "a7ffc6f8bf1ed76651c14756a061d662f580ff4de43b49fa82d80a4b80f8434a"
    );
    assert_eq!(derive_key("abc"), derive_key(""));
    let name = "\u{3084}\u{307e}\u{3060}";
    let expected: [u8; 32] = sha3::Sha3_256::digest(name.as_bytes()).into();
    assert_eq!(derive_key(name), expected);
    assert_eq!(derive_key("Mr. \u{3084}\u{307e}\u{3060}"), expected);
    assert_ne!(derive_key(name), derive_key(""));
    assert_ne!(&derive_key(name)[..9], name.as_bytes());
}

#[test]
fn a_text_gives_the_digest_of_its_bytes() {
    assert_eq!(
        hex(&key_from("abc")),
        "3a985da74fe225b2045c172d6bd390bd855f086e3e9d525b46bfe24511431532"
    );
    assert_eq!(key_from(""), derive_key("abc"));
    assert_ne!(key_from("abc"), derive_key("abc"));
}

#[test]
fn trailing_zeros_are_stripped() {
    assert_eq!(strip_padding(vec![1, 2, 3, 0, 0]), vec![1, 2, 3]);
    assert_eq!(strip_padding(vec![1, 0, 3]), vec![1, 0, 3]);
    assert_eq!(strip_padding(vec![0, 1, 0]), vec![0, 1]);
    assert_eq!(strip_padding(vec![0, 0, 0]), Vec::<u8>::new());
    assert_eq!(strip_padding(Vec::new()), Vec::<u8>::new());
    assert_eq!(strip_padding(b"[]\0\0\0\0".to_vec()), b"[]".to_vec());
}

fn counting_key() -> [u8; 32] {
    let mut key = [0u8; 32];
    for (i, byte) in key.iter_mut().enumerate() {
        *byte = i as u8;
    }
    key
}

fn unhex(text: &str) -> Vec<u8> {
    (0..text.len() / 2).map(|i| u8::from_str_radix(&text[2 * i..2 * i + 2], 16).unwrap()).collect()
}

#[test]
fn a_block_is_enciphered_as_the_standard_says() {
    let plain = unhex("00112233445566778899aabbccddeeff");
    let cipher = unhex("8ea2b7ca516745bfeafc49904b496089");
    assert_eq!(encrypt(&plain, &counting_key()), cipher);
    assert_eq!(decrypt(&cipher, &counting_key()), plain);
    assert_ne!(encrypt(&plain, &counting_key()), plain);
    assert_ne!(decrypt(&cipher, &counting_key()), cipher);
}

#[test]
fn blocks_are_enciphered_one_by_one() {
    let plain = unhex("00112233445566778899aabbccddeeff");
    let cipher = unhex("8ea2b7ca516745bfeafc49904b496089");
    let twice: Vec<u8> = plain.iter().chain(plain.iter()).copied().collect();
    let expected: Vec<u8> = cipher.iter().chain(cipher.iter()).copied().collect();
    assert_eq!(encrypt(&twice, &counting_key()), expected);
    assert_eq!(decrypt(&expected, &counting_key()), twice);
    assert_eq!(encrypt(&[], &counting_key()), Vec::<u8>::new());
    assert_eq!(decrypt(&[], &counting_key()), Vec::<u8>::new());
}

#[test]
fn a_last_block_that_is_not_full_is_filled_with_zeros() {
    let key = derive_key("\u{3084}\u{307e}\u{3060}");
    let text = b"[{\"category_name\":\"name\",\"values\":[]}]";
    let cipher = encrypt(text, &key);
    assert_eq!(cipher.len(), 48);
    let mut padded = text.to_vec();
    padded.resize(48, 0);
    assert_eq!(decrypt(&cipher, &key), padded);
    assert_eq!(decipher(&cipher, &key), text.to_vec());
    assert_ne!(decipher(&cipher, &derive_key("\u{3084}\u{307e}")), text.to_vec());
    assert_eq!(encrypt(&padded, &key), cipher);
    assert_eq!(decrypt(&cipher[..40], &key).len(), 48);
    assert_eq!(decrypt(&cipher[..40], &key)[..32], padded[..32]);
}

#[test]
fn the_plain_profile_is_shown_until_one_is_revealed() {
    let start = ProfileDataList::Raw(Vec::<u8>::new());
    assert_eq!(start.data(), &Vec::<u8>::new());
    let (shown, changed) = start.fetched(vec![1]);
    assert_eq!((shown.clone(), changed), (ProfileDataList::Raw(vec![1]), true));
    let (shown, changed) = shown.revealed(vec![2], true);
    assert_eq!((shown.clone(), changed), (ProfileDataList::Encrypted(vec![2]), true));
    assert_eq!(shown.data(), &vec![2]);
    let (shown, changed) = shown.fetched(vec![3]);
    assert_eq!((shown.clone(), changed), (ProfileDataList::Encrypted(vec![2]), false));
    let (shown, changed) = shown.revealed(vec![2], false);
    assert_eq!((shown.clone(), changed), (ProfileDataList::Encrypted(vec![2]), false));
    let (shown, changed) = shown.revealed(vec![4], true);
    assert_eq!((shown, changed), (ProfileDataList::Encrypted(vec![4]), true));
}

#[test]
fn pages_have_titles() {
    assert_eq!(AppRoute::Profile.to_string(), "Profile");
    assert_eq!(AppRoute::Qualifications.to_string(), "Qualifications");
    assert_eq!(AppRoute::Links.to_string(), "Links");
    assert_eq!(AppRoute::Works.to_string(), "Works");
    assert_eq!(AppRoute::License.to_string(), "License");
    assert_eq!(AppRoute::Home.to_string(), "Home");
}

#[test]
fn changing_to_the_page_shown_changes_nothing() {
    assert_eq!(AppRoute::Home.change(AppRoute::Works), (AppRoute::Works, true));
    assert_eq!(AppRoute::Works.change(AppRoute::Works), (AppRoute::Works, false));
    assert_eq!(AppRoute::License.change(AppRoute::Home), (AppRoute::Home, true));
}
