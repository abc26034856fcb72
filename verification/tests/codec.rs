use fuzzer::codec::{get_u32, get_u64, put_i32, put_i64, put_u32, put_u64, to_i32, to_i64, DecodeError};
use fuzzer::{Command, CommandData, Input};
use serde::ser::{Serialize, SerializeStruct, Serializer};

/// The same data as the library's types, written out for serde by hand.
struct WireData<'a>(&'a CommandData);

struct WireCommand<'a>(&'a Command);

struct WireInput<'a>(&'a Input);

impl<'a> Serialize for WireData<'a> {
    fn serialize<S: Serializer>(&self, serializer: S) -> Result<S::Ok, S::Error> {
        match self.0 {
            CommandData::SInt(v) => serializer.serialize_newtype_variant("CommandData", 0, "SInt", v),
            CommandData::UInt(v) => serializer.serialize_newtype_variant("CommandData", 1, "UInt", v),
            CommandData::Binary(v) => {
                serializer.serialize_newtype_variant("CommandData", 2, "Binary", v)
            }
        }
    }
}

impl<'a> Serialize for WireCommand<'a> {
    fn serialize<S: Serializer>(&self, serializer: S) -> Result<S::Ok, S::Error> {
        let data: Vec<WireData> = self.0.data.iter().map(WireData).collect();
        let mut state = serializer.serialize_struct("Command", 2)?;
        state.serialize_field("id", &self.0.id)?;
        state.serialize_field("data", &data)?;
        state.end()
    }
}

impl<'a> Serialize for WireInput<'a> {
    fn serialize<S: Serializer>(&self, serializer: S) -> Result<S::Ok, S::Error> {
        let commands: Vec<WireCommand> = self.0.commands.iter().map(WireCommand).collect();
        let mut state = serializer.serialize_struct("Input", 1)?;
        state.serialize_field("commands", &commands)?;
        state.end()
    }
}

fn sample() -> Input {
    Input {
        commands: vec![
            Command {
                id: -2,
                data: vec![
                    CommandData::SInt(-1),
                    CommandData::UInt(258),
                    CommandData::Binary(vec![0xAA, 0xBB]),
                ],
            },
            Command { id: 7, data: vec![] },
        ],
    }
}

fn sample_bytes() -> Vec<u8> {
    let mut bytes = Vec::new();
    bytes.extend_from_slice(&[2, 0, 0, 0, 0, 0, 0, 0]); // two commands
    bytes.extend_from_slice(&[0xFE, 0xFF, 0xFF, 0xFF]); // opcode -2
    bytes.extend_from_slice(&[3, 0, 0, 0, 0, 0, 0, 0]); // three fields
    bytes.extend_from_slice(&[0, 0, 0, 0]); // signed
    bytes.extend_from_slice(&[0xFF; 8]); // -1
    bytes.extend_from_slice(&[1, 0, 0, 0]); // unsigned
    bytes.extend_from_slice(&[2, 1, 0, 0, 0, 0, 0, 0]); // 258
    bytes.extend_from_slice(&[2, 0, 0, 0]); // buffer
    bytes.extend_from_slice(&[2, 0, 0, 0, 0, 0, 0, 0]); // two bytes
    bytes.extend_from_slice(&[0xAA, 0xBB]);
    bytes.extend_from_slice(&[7, 0, 0, 0]); // opcode 7
    bytes.extend_from_slice(&[0, 0, 0, 0, 0, 0, 0, 0]); // no fields
    bytes
}

#[test]
fn integers_are_little_endian() {
    let mut out = Vec::new();
    put_u32(&mut out, 0x0403_0201);
    assert_eq!(out, vec![1, 2, 3, 4]);
    let mut out = Vec::new();
    put_u64(&mut out, 0x0807_0605_0403_0201);
    assert_eq!(out, vec![1, 2, 3, 4, 5, 6, 7, 8]);
    let mut out = vec![9];
    put_u64(&mut out, u64::MAX);
    assert_eq!(out, vec![9, 255, 255, 255, 255, 255, 255, 255, 255]);
}

#[test]
fn signed_integers_are_twos_complement() {
    let mut out = Vec::new();
    put_i32(&mut out, -2);
    assert_eq!(out, vec![0xFE, 0xFF, 0xFF, 0xFF]);
    let mut out = Vec::new();
    put_i32(&mut out, i32::MIN);
    assert_eq!(out, vec![0, 0, 0, 0x80]);
    let mut out = Vec::new();
    put_i64(&mut out, -1);
    assert_eq!(out, vec![0xFF; 8]);
    let mut out = Vec::new();
    put_i64(&mut out, i64::MIN);
    assert_eq!(out, vec![0, 0, 0, 0, 0, 0, 0, 0x80]);
    let mut out = Vec::new();
    put_i64(&mut out, i64::MAX);
    assert_eq!(out, vec![0xFF, 0xFF, 0xFF, 0xFF, 0xFF, 0xFF, 0xFF, 0x7F]);
}

#[test]
fn integers_agree_with_the_standard_library() {
    for v in [0u64, 1, 255, 256, 0xDEAD_BEEF, 0x0123_4567_89AB_CDEF, u64::MAX] {
        let mut out = Vec::new();
        put_u64(&mut out, v);
        assert_eq!(out, v.to_le_bytes());
        assert_eq!(get_u64(&out, 0), Some(v));
        let mut out = Vec::new();
        put_i64(&mut out, v as i64);
        assert_eq!(out, (v as i64).to_le_bytes());
        assert_eq!(to_i64(v), v as i64);
    }
    for v in [0u32, 1, 255, 256, 0xDEAD_BEEF, u32::MAX] {
        let mut out = Vec::new();
        put_u32(&mut out, v);
        assert_eq!(out, v.to_le_bytes());
        assert_eq!(get_u32(&out, 0), Some(v));
        let mut out = Vec::new();
        put_i32(&mut out, v as i32);
        assert_eq!(out, (v as i32).to_le_bytes());
        assert_eq!(to_i32(v), v as i32);
    }
}

#[test]
fn reading_past_the_end_gives_nothing() {
    let bytes = [1u8, 2, 3, 4, 5, 6, 7, 8, 9];
    assert_eq!(get_u32(&bytes, 5), Some(0x0908_0706));
    assert_eq!(get_u32(&bytes, 6), None);
    assert_eq!(get_u32(&bytes, 9), None);
    assert_eq!(get_u32(&bytes, usize::MAX), None);
    assert_eq!(get_u64(&bytes, 1), Some(0x0908_0706_0504_0302));
    assert_eq!(get_u64(&bytes, 2), None);
    assert_eq!(get_u64(&bytes, usize::MAX), None);
}

#[test]
fn encoding_of_a_sample_input() {
    assert_eq!(sample().encode(), sample_bytes());
}

#[test]
fn encoding_of_the_empty_input() {
    assert_eq!(Input::new().encode(), vec![0u8; 8]);
}

#[test]
fn encoding_appends_to_what_is_there() {
    let mut out = vec![0xEE];
    sample().encode_into(&mut out);
    assert_eq!(out[0], 0xEE);
    assert_eq!(&out[1..], &sample_bytes()[..]);
}

#[test]
fn decoding_of_a_sample_input() {
    assert_eq!(Input::decode(&sample_bytes()), Ok(sample()));
}

#[test]
fn decoding_undoes_encoding() {
    let inputs = vec![
        Input::new(),
        sample(),
        Input {
            commands: vec![Command {
                id: i32::MIN,
                data: vec![
                    CommandData::SInt(i64::MIN),
                    CommandData::SInt(i64::MAX),
                    CommandData::UInt(u64::MAX),
                    CommandData::Binary(vec![]),
                    CommandData::Binary((0..=255).collect()),
                ],
            }],
        },
    ];
    for input in inputs {
        assert_eq!(Input::decode(&input.encode()), Ok(input));
    }
}

#[test]
fn decoding_ignores_trailing_bytes() {
    let mut bytes = sample_bytes();
    bytes.extend_from_slice(&[1, 2, 3]);
    assert_eq!(Input::decode(&bytes), Ok(sample()));
}

#[test]
fn decoding_a_truncated_header_fails() {
    for len in 0..8 {
        assert_eq!(Input::decode(&vec![0u8; len]), Err(DecodeError::UnexpectedEnd));
    }
}

#[test]
fn decoding_any_truncation_fails() {
    let bytes = sample_bytes();
    for len in 0..bytes.len() {
        assert_eq!(Input::decode(&bytes[..len]), Err(DecodeError::UnexpectedEnd));
    }
}

#[test]
fn decoding_an_unknown_kind_fails() {
    let mut bytes = sample_bytes();
    // The kind tag of the first field.
    bytes[20] = 3;
    assert_eq!(Input::decode(&bytes), Err(DecodeError::UnknownKind(3)));
    bytes[23] = 0x80;
    assert_eq!(Input::decode(&bytes), Err(DecodeError::UnknownKind(0x8000_0003)));
}

#[test]
fn an_unknown_kind_is_reported_before_a_missing_payload() {
    let mut bytes = sample_bytes();
    bytes[20] = 9;
    bytes.truncate(24);
    assert_eq!(Input::decode(&bytes), Err(DecodeError::UnknownKind(9)));
}

#[test]
fn decoding_an_overlong_count_fails() {
    // A command count far beyond what the bytes can hold.
    let mut bytes = vec![0xFFu8; 8];
    bytes.extend_from_slice(&[7, 0, 0, 0, 0, 0, 0, 0, 0, 0, 0, 0]);
    assert_eq!(Input::decode(&bytes), Err(DecodeError::UnexpectedEnd));
    // A buffer length far beyond what the bytes can hold.
    let mut bytes = Vec::new();
    bytes.extend_from_slice(&[1, 0, 0, 0, 0, 0, 0, 0]);
    bytes.extend_from_slice(&[4, 0, 0, 0]);
    bytes.extend_from_slice(&[1, 0, 0, 0, 0, 0, 0, 0]);
    bytes.extend_from_slice(&[2, 0, 0, 0]);
    bytes.extend_from_slice(&[0xFF; 8]);
    bytes.extend_from_slice(&[1, 2, 3]);
    assert_eq!(Input::decode(&bytes), Err(DecodeError::UnexpectedEnd));
}

#[test]
fn errors_describe_themselves() {
    assert_eq!(DecodeError::UnexpectedEnd.describe(), "unexpected end of input");
    assert_eq!(DecodeError::UnknownKind(5).describe(), "unknown field kind");
}

#[test]
fn encoding_agrees_with_bincode() {
    let inputs = vec![
        Input::new(),
        sample(),
        Input {
            commands: vec![
                Command { id: 1, data: vec![CommandData::UInt(5), CommandData::UInt(256)] },
                Command { id: 3, data: vec![CommandData::SInt(i64::MIN)] },
                Command {
                    id: 4,
                    data: vec![CommandData::UInt(3), CommandData::Binary(vec![0x41; 512])],
                },
                Command { id: 7, data: vec![] },
            ],
        },
    ];
    for input in inputs {
        let theirs = bincode::serialize(&WireInput(&input)).unwrap();
        assert_eq!(input.encode(), theirs);
        assert_eq!(Input::decode(&theirs), Ok(input));
    }
}
