use attest_gate::extract::extract_codehash;
use attest_gate::Error;

const HASH: &str = "9f86d081884c7d659a2feaa0c55ad015a3bf4f1b2b0b822cd15d6c15b0f00a08";

#[test]
fn extracts_the_codehash_from_the_image_line() {
    let app = format!(
        "services:\n  worker:\n    image: org/worker:latest@sha256:{}\n    restart: always\n",
        HASH
    );
    assert_eq!(extract_codehash(&app).unwrap(), HASH);
}

#[test]
fn extracts_when_the_image_line_ends_the_text() {
    let app = format!("image: org/worker@sha256:{}", HASH);
    assert_eq!(extract_codehash(&app).unwrap(), HASH);
}

#[test]
fn missing_image_marker_is_refused() {
    let app = format!("services:\n  worker@sha256:{}\n", HASH);
    assert_eq!(extract_codehash(&app).unwrap_err(), Error::ManifestParseError);
}

#[test]
fn missing_digest_marker_is_refused() {
    let app = "services:\n  worker:\n    image: org/worker:latest\n";
    assert_eq!(extract_codehash(app).unwrap_err(), Error::ManifestParseError);
}

#[test]
fn digest_marker_after_the_line_end_is_refused() {
    let app = format!("image: org/worker\nnext@sha256:{}\n", HASH);
    assert_eq!(extract_codehash(&app).unwrap_err(), Error::ManifestParseError);
}

#[test]
fn short_codehash_is_refused() {
    let app = format!("image: a@sha256:{}\n", &HASH[..63]);
    assert_eq!(extract_codehash(&app).unwrap_err(), Error::ManifestParseError);
}

#[test]
fn long_tail_after_codehash_is_refused() {
    let app = format!("image: a@sha256:{}extra\n", HASH);
    assert_eq!(extract_codehash(&app).unwrap_err(), Error::ManifestParseError);
}

#[test]
fn uppercase_codehash_is_refused() {
    let upper = HASH.to_uppercase();
    let app = format!("image: a@sha256:{}\n", upper);
    assert_eq!(extract_codehash(&app).unwrap_err(), Error::ManifestParseError);
}
