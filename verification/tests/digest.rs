use create_dotslash::digest::{Digest, DigestError, Lookup};

const ABC_HEX: &str = "ba7816bf8f01cfea414140de5dae2223b00361a396177a9cb410ff61f20015ad";

fn bytes(digest: Digest) -> [u8; 32] {
    match digest {
        Digest::Sha256(bytes) | Digest::Blake3(bytes) => bytes,
    }
}

fn error(data: &str, algo: &str) -> DigestError {
    match Digest::parse(data, algo) {
        Ok(_) => panic!("{data} was read"),
        Err(error) => error,
    }
}

#[test]
fn hexadecimal_is_read_in_either_case() {
    let lower = bytes(Digest::parse(ABC_HEX, "sha256").unwrap());
    let upper = bytes(Digest::parse(&ABC_HEX.to_uppercase(), "sha256").unwrap());
    assert_eq!(lower, upper);
    assert_eq!(lower[0], 0xba);
    assert_eq!(lower[31], 0xad);
}

#[test]
fn base64_is_read_in_either_alphabet() {
    // 32 times the same byte, in both alphabets.
    let standard = "+/v7+/v7+/v7+/v7+/v7+/v7+/v7+/v7+/v7+/v7+/s=";
    let url_safe = standard.replace('+', "-").replace('/', "_");
    let a = bytes(Digest::parse(standard, "blake3").unwrap());
    let b = bytes(Digest::parse(&url_safe, "blake3").unwrap());
    assert_eq!(a, b);
    assert_eq!(a[..3], [0xfb, 0xfb, 0xfb]);
    assert_eq!(a[31], 0xfb);
}

#[test]
fn algorithm_is_a_prefix() {
    let sha256 = Digest::parse(&format!("sha256:{ABC_HEX}"), "").unwrap();
    assert!(matches!(sha256, Digest::Sha256(_)));
    assert!(sha256.same_as(&Digest::parse(ABC_HEX, "sha256").unwrap()));
    let blake3 = Digest::parse(&format!("blake3-{ABC_HEX}"), "").unwrap();
    assert!(matches!(blake3, Digest::Blake3(_)));
    assert!(!blake3.same_as(&sha256));
    let other = Digest::parse(&"0".repeat(64), "sha256").unwrap();
    assert!(!other.same_as(&sha256));
}

#[test]
fn bad_digests_are_refused() {
    assert_eq!(error("no-algorithm", "").message(), "unknown digest algorithm no");
    assert_eq!(error("nothing", "").message(), "unknown digest \"nothing\"");
    assert_eq!(error("x:y", "").message(), "unknown digest algorithm x");
    assert_eq!(
        error("a\"b", "sha256").message(),
        "failed to parse digest in \"a\\\"b\""
    );
    assert!(Digest::parse(&"g".repeat(64), "sha256").is_err());
    assert!(Digest::parse(&"A".repeat(43), "sha256").is_err());
    assert!(Digest::parse(&"A".repeat(44), "sha256").is_err());
    assert!(Digest::parse(&"a".repeat(63), "sha256").is_err());
    // 31 bytes are followed by a zero.
    let short = Digest::parse(&format!("/{}==", "/".repeat(40) + "w"), "sha256").unwrap();
    let mut bytes = [255; 32];
    bytes[31] = 0;
    assert!(short.same_as(&Digest::Sha256(bytes)));
}

#[test]
fn sums_are_read_up_to_the_first_space() {
    let sum = format!("{ABC_HEX}  file\n");
    let digest = Digest::parse_sum(sum.as_bytes()).unwrap();
    assert!(digest.same_as(&Digest::parse(ABC_HEX, "sha256").unwrap()));
    assert!(Digest::parse_sum(ABC_HEX.as_bytes()).is_some());
    assert!(Digest::parse_sum(format!("{ABC_HEX}\tx").as_bytes()).is_some());
    assert!(Digest::parse_sum(b"").is_none());
    assert!(Digest::parse_sum(b" ").is_none());
    assert!(Digest::parse_sum(format!(" {ABC_HEX}").as_bytes()).is_none());
}

#[test]
fn digests_are_looked_up_at_urls() {
    assert!(matches!(Digest::look_up("https://a.b/c.sha256"), Lookup::Fetch));
    assert!(matches!(
        Digest::look_up(&format!("sha256:{ABC_HEX}")),
        Lookup::Parsed(Ok(Digest::Sha256(_)))
    ));
    assert!(matches!(
        Digest::look_up("http://a.b"),
        Lookup::Parsed(Err(DigestError::UnknownAlgorithm(_)))
    ));
}
