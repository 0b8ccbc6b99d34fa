use ssh_agent::error::AgentError;
use ssh_agent::wire::{bytes_equal, put_string, put_text, put_u32, put_u8, string_len, Reader};

#[test]
fn u32_is_written_big_endian() {
    let mut out = Vec::new();
    put_u32(&mut out, 0x0102_0304);
    assert_eq!(out, vec![1, 2, 3, 4]);
}

#[test]
fn u32_is_read_big_endian() {
    let bytes = [0u8, 0, 1, 0, 9];
    let mut reader = Reader::new(&bytes);
    assert_eq!(reader.read_u32(), Ok(256));
    assert_eq!(reader.read_u8(), Ok(9));
    assert_eq!(reader.read_u8(), Err(AgentError::Truncated));
}

#[test]
fn string_carries_its_length() {
    let mut out = Vec::new();
    put_u8(&mut out, 7);
    assert_eq!(put_string(&mut out, b"testing"), Ok(()));
    assert_eq!(out, b"\x07\x00\x00\x00\x07testing".to_vec());
}

#[test]
fn errors_have_messages() {
    assert_eq!(AgentError::KeyNotFound.message(), "identity not found");
    assert_eq!(AgentError::UnsupportedKeyType.message(), "key type not supported");
    assert_eq!(AgentError::UnknownMessage.message(), "unknown message tag");
    assert_eq!(AgentError::Truncated.message(), "message ends too early");
    assert_eq!(AgentError::InvalidText.message(), "text is not UTF-8");
    assert_eq!(AgentError::TooLong.message(), "length does not fit");
    assert_eq!(AgentError::UnknownAlgorithm.message(), "unknown signature algorithm");
    assert_eq!(AgentError::InvalidKey.message(), "not a public key");
    assert_eq!(AgentError::SigningFailed.message(), "signing failed");
    assert_eq!(AgentError::IOError.message(), "transport failed");
}

#[test]
fn text_is_written_as_utf8() {
    let mut out = Vec::new();
    assert_eq!(put_text(&mut out, "zw\u{f6}lf"), Ok(()));
    assert_eq!(out, vec![0, 0, 0, 6, b'z', b'w', 0xc3, 0xb6, b'l', b'f']);
    let mut empty = Vec::new();
    assert_eq!(put_text(&mut empty, ""), Ok(()));
    assert_eq!(empty, vec![0, 0, 0, 0]);
}

#[test]
fn string_length_counts_the_prefix() {
    assert_eq!(string_len(0), Ok(4));
    assert_eq!(string_len(51), Ok(55));
    assert_eq!(string_len(usize::MAX - 4), Ok(usize::MAX));
    assert_eq!(string_len(usize::MAX - 3), Err(AgentError::TooLong));
    assert_eq!(string_len(usize::MAX), Err(AgentError::TooLong));
}

#[test]
fn string_is_read_with_its_length() {
    let bytes = [0u8, 0, 0, 3, b'a', b'b', b'c', 0, 0, 0, 0, 0, 0, 0, 2, 1];
    let mut reader = Reader::new(&bytes);
    assert_eq!(reader.read_string(), Ok(b"abc".to_vec()));
    assert_eq!(reader.read_string(), Ok(Vec::new()));
    assert_eq!(reader.read_string(), Err(AgentError::Truncated));
    assert_eq!(reader.read_u32(), Ok(2));
    assert_eq!(reader.read_u32(), Err(AgentError::Truncated));
    assert_eq!(reader.read_u8(), Ok(1));
}

#[test]
fn failed_read_leaves_the_cursor() {
    let bytes = [0u8, 0, 0, 9, 1, 2];
    let mut reader = Reader::new(&bytes);
    assert_eq!(reader.read_string(), Err(AgentError::Truncated));
    assert_eq!(reader.read_text(), Err(AgentError::Truncated));
    assert_eq!(reader.read_u32(), Ok(9));
    assert_eq!(reader.read_u8(), Ok(1));
}

#[test]
fn bytes_are_compared_in_full() {
    assert!(bytes_equal(b"", b""));
    assert!(bytes_equal(b"abc", b"abc"));
    assert!(!bytes_equal(b"abc", b"abd"));
    assert!(!bytes_equal(b"abc", b"ab"));
    assert!(!bytes_equal(b"", b"a"));
}

#[test]
fn u32_extremes_survive() {
    for v in [0u32, 1, 255, 256, 0x00ff_ffff, 0x0100_0000, 0x7fff_ffff, 0x8000_0000, u32::MAX] {
        let mut out = Vec::new();
        put_u32(&mut out, v);
        assert_eq!(out, v.to_be_bytes().to_vec());
        assert_eq!(Reader::new(&out).read_u32(), Ok(v));
    }
}
