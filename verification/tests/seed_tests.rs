use monero_keys::errors::Error;
use monero_keys::seed::{decode_mnemonic, encode_mnemonic};
use monero_keys::wordlist::{bundled_wordlist, Wordlist};

fn wordlist() -> Wordlist {
    bundled_wordlist().expect("the bundled word table must pass validation")
}

fn bytes(s: &str) -> Vec<u8> {
    s.as_bytes().to_vec()
}

#[test]
fn bundled_wordlist_is_valid() {
    let wl = wordlist();
    assert_eq!(wl.len(), 1626);
    assert_eq!(wl.word(0).as_slice(), b"academy");
    assert_eq!(wl.find(&bytes("acrobat")), Some(1));
    assert_eq!(wl.find(&bytes("notawordofthelist")), None);
}

#[test]
fn zero_entropy_mnemonic_is_all_first_word() {
    let wl = wordlist();
    let m = encode_mnemonic(&[0u8; 32], &wl);
    let text = String::from_utf8(m).unwrap();
    let words: Vec<&str> = text.split(' ').collect();
    assert_eq!(words.len(), 25);
    for w in &words {
        assert_eq!(*w, "academy");
    }
}

#[test]
fn round_trip_all_zero() {
    let wl = wordlist();
    let e = [0u8; 32];
    let m = encode_mnemonic(&e, &wl);
    assert_eq!(decode_mnemonic(&m, &wl), Ok(e));
}

#[test]
fn round_trip_various_entropies() {
    let wl = wordlist();
    let mut samples: Vec<[u8; 32]> = Vec::new();
    samples.push([0xffu8; 32]);
    samples.push([0x5au8; 32]);
    let mut counting = [0u8; 32];
    let mut i = 0usize;
    while i < 32 {
        counting[i] = i as u8;
        i += 1;
    }
    samples.push(counting);
    let mut pseudo = [0u8; 32];
    let mut state: u64 = 0x1234_5678_9abc_def0;
    let mut k = 0usize;
    while k < 32 {
        state = state.wrapping_mul(6364136223846793005).wrapping_add(1442695040888963407);
        pseudo[k] = (state >> 56) as u8;
        k += 1;
    }
    samples.push(pseudo);
    for e in samples {
        let m = encode_mnemonic(&e, &wl);
        assert_eq!(decode_mnemonic(&m, &wl), Ok(e), "round trip failed");
    }
}

#[test]
fn decode_rejects_wrong_word_count() {
    let wl = wordlist();
    assert_eq!(
        decode_mnemonic(b"academy academy academy", &wl),
        Err(Error::InvalidMnemonic)
    );
    assert_eq!(decode_mnemonic(b"", &wl), Err(Error::InvalidMnemonic));
}

#[test]
fn decode_rejects_unknown_word() {
    let wl = wordlist();
    let e = [0u8; 32];
    let m = encode_mnemonic(&e, &wl);
    let text = String::from_utf8(m).unwrap();
    let mutated = text.replacen("academy", "zzzzzzz", 1);
    assert_eq!(
        decode_mnemonic(mutated.as_bytes(), &wl),
        Err(Error::InvalidMnemonic)
    );
}

#[test]
fn decode_rejects_malformed_text() {
    let wl = wordlist();
    assert_eq!(
        decode_mnemonic(b"not a real mnemonic phrase", &wl),
        Err(Error::InvalidMnemonic)
    );
}

#[test]
fn custom_wordlist_round_trips_with_other_prefix_length() {
    let mut words: Vec<Vec<u8>> = Vec::new();
    for i in 0..1626usize {
        words.push(vec![
            b'a' + (i / 676) as u8,
            b'a' + ((i / 26) % 26) as u8,
            b'a' + (i % 26) as u8,
            b'q',
        ]);
    }
    let wl = Wordlist::new(words.clone(), 4).expect("the synthetic wordlist is valid");
    let mut e = [0u8; 32];
    let mut i = 0usize;
    while i < 32 {
        e[i] = (255 - i) as u8;
        i += 1;
    }
    let m = encode_mnemonic(&e, &wl);
    assert_eq!(decode_mnemonic(&m, &wl), Ok(e));
    assert!(Wordlist::new(words.clone(), 0).is_none());
    let mut duplicated = words.clone();
    duplicated[5] = duplicated[4].clone();
    assert!(Wordlist::new(duplicated, 3).is_none());
}

#[test]
fn counting_entropy_mnemonic_fixture() {
    let wl = wordlist();
    let mut e = [0u8; 32];
    let mut i = 0usize;
    while i < 32 {
        e[i] = i as u8;
        i += 1;
    }
    let m = encode_mnemonic(&e, &wl);
    let text = String::from_utf8(m).unwrap();
    assert_eq!(
        text,
        "battery design dominic madonna exile halt visitor condor kitchen heroic jazz million paint presto reserve deliver sabrina monkey penguin origin strong gravity america domino halt"
    );
}

#[test]
fn single_word_mutations_never_recover_the_entropy() {
    let wl = wordlist();
    let mut e = [0u8; 32];
    let mut i = 0usize;
    while i < 32 {
        e[i] = i as u8;
        i += 1;
    }
    let m = encode_mnemonic(&e, &wl);
    let text = String::from_utf8(m).unwrap();
    let words: Vec<String> = text.split(' ').map(|w| w.to_string()).collect();
    assert_eq!(words.len(), 25);
    let mut rejections = 0usize;
    for p in 0..24 {
        let mut mutated = words.clone();
        let replacement = if mutated[p] == "acrobat" { "academy" } else { "acrobat" };
        mutated[p] = replacement.to_string();
        let joined = mutated.join(" ");
        let r = decode_mnemonic(joined.as_bytes(), &wl);
        assert_ne!(r, Ok(e), "a mutated mnemonic must not yield the encoded entropy");
        if r.is_err() {
            rejections += 1;
        }
    }
    assert!(
        rejections >= 22,
        "checksum coverage: almost every single-word mutation must be rejected, got {rejections}"
    );
}
