use fuzzer::babynotes::{
    exit_command, fuzz, new_fuzzer, post_process, seed, FuzzError, CMD_ADD_NOTE, CMD_CHECK,
    CMD_DELETE_NOTE, CMD_EDIT_NOTE, CMD_EXIT, CMD_RESET, CMD_SHOW_NOTE,
};
use fuzzer::codec::DecodeError;
use fuzzer::scalar::IntWalk;
use fuzzer::{Command, CommandData, CommandDataSpec, CommandSpec, Input};

#[test]
fn the_grammar_has_seven_commands() {
    let fuzzer = new_fuzzer(3, 1);
    assert_eq!(fuzzer.afl(), 3);
    assert_eq!(fuzzer.int_walk(), IntWalk::UnitStep);
    assert_eq!(
        fuzzer.spec(),
        &[
            CommandSpec {
                id: 1,
                data: vec![
                    CommandDataSpec::UInt { min: 0, max: 5 },
                    CommandDataSpec::UInt { min: 0, max: 256 },
                ],
            },
            CommandSpec { id: 2, data: vec![CommandDataSpec::UInt { min: 0, max: 5 }] },
            CommandSpec { id: 3, data: vec![CommandDataSpec::SInt { min: i64::MIN, max: 3 }] },
            CommandSpec {
                id: 4,
                data: vec![
                    CommandDataSpec::UInt { min: 0, max: 3 },
                    CommandDataSpec::Binary { min_len: 1, max_len: 512 },
                ],
            },
            CommandSpec { id: 5, data: vec![] },
            CommandSpec { id: 6, data: vec![] },
            CommandSpec { id: 7, data: vec![] },
        ][..]
    );
}

#[test]
fn opcodes() {
    assert_eq!(
        [
            CMD_ADD_NOTE,
            CMD_SHOW_NOTE,
            CMD_DELETE_NOTE,
            CMD_EDIT_NOTE,
            CMD_RESET,
            CMD_CHECK,
            CMD_EXIT
        ],
        [1, 2, 3, 4, 5, 6, 7]
    );
}

#[test]
fn the_seed_is_the_exit_command() {
    assert_eq!(exit_command(), Command { id: 7, data: vec![] });
    assert_eq!(seed(), Input { commands: vec![Command { id: 7, data: vec![] }] });
    assert_eq!(
        seed().encode(),
        vec![1, 0, 0, 0, 0, 0, 0, 0, 7, 0, 0, 0, 0, 0, 0, 0, 0, 0, 0, 0]
    );
    assert!(seed().conforms_to(new_fuzzer(0, 0).spec()));
}

#[test]
fn fuzzing_the_seed_stays_inside_the_grammar() {
    let mut fuzzer = new_fuzzer(0, 42);
    let mut bytes = seed().encode();
    let mut longest = 0;
    for _ in 0..500 {
        assert_eq!(fuzz(&mut fuzzer, &bytes), Ok(()));
        bytes = fuzzer.fuzz_buf().to_vec();
        let input = Input::decode(&bytes).unwrap();
        assert!(input.conforms_to(fuzzer.spec()));
        assert!(!input.commands.is_empty());
        longest = longest.max(input.commands.len());
    }
    assert!(longest > 1);
}

#[test]
fn fuzzing_is_reproducible() {
    let mut first = new_fuzzer(0, 7);
    let mut second = new_fuzzer(1, 7);
    let mut bytes = seed().encode();
    for _ in 0..200 {
        assert_eq!(fuzz(&mut first, &bytes), Ok(()));
        assert_eq!(fuzz(&mut second, &bytes), Ok(()));
        assert_eq!(first.fuzz_buf(), second.fuzz_buf());
        bytes = first.fuzz_buf().to_vec();
    }
}

#[test]
fn fuzzing_rejects_bytes_that_do_not_decode() {
    let mut fuzzer = new_fuzzer(0, 1);
    fuzzer.alloc_fuzz_buf().extend_from_slice(b"kept");
    assert_eq!(fuzz(&mut fuzzer, &[1, 0, 0]), Err(FuzzError::Decode(DecodeError::UnexpectedEnd)));
    assert_eq!(fuzzer.fuzz_buf(), b"kept");
    let mut bytes = Input { commands: vec![Command { id: 3, data: vec![CommandData::SInt(0)] }] }
        .encode();
    bytes[20] = 5;
    assert_eq!(fuzz(&mut fuzzer, &bytes), Err(FuzzError::Decode(DecodeError::UnknownKind(5))));
    assert_eq!(fuzzer.fuzz_buf(), b"kept");
}

#[test]
fn fuzzing_rejects_inputs_outside_the_grammar() {
    let mut fuzzer = new_fuzzer(0, 1);
    fuzzer.alloc_fuzz_buf().extend_from_slice(b"kept");
    let unknown = Input { commands: vec![Command { id: 8, data: vec![] }] };
    assert_eq!(fuzz(&mut fuzzer, &unknown.encode()), Err(FuzzError::Grammar));
    let out_of_range = Input { commands: vec![Command { id: 2, data: vec![CommandData::UInt(6)] }] };
    assert_eq!(fuzz(&mut fuzzer, &out_of_range.encode()), Err(FuzzError::Grammar));
    let wrong_kind = Input { commands: vec![Command { id: 2, data: vec![CommandData::SInt(1)] }] };
    assert_eq!(fuzz(&mut fuzzer, &wrong_kind.encode()), Err(FuzzError::Grammar));
    let missing_field = Input { commands: vec![Command { id: 2, data: vec![] }] };
    assert_eq!(fuzz(&mut fuzzer, &missing_field.encode()), Err(FuzzError::Grammar));
    assert_eq!(fuzzer.fuzz_buf(), b"kept");
}

#[test]
fn post_processing_renders_the_input_and_an_exit() {
    let mut fuzzer = new_fuzzer(0, 1);
    let input = Input {
        commands: vec![
            Command { id: 1, data: vec![CommandData::UInt(0), CommandData::UInt(16)] },
            Command {
                id: 4,
                data: vec![CommandData::UInt(0), CommandData::Binary(b"note".to_vec())],
            },
            Command { id: 3, data: vec![CommandData::SInt(-1)] },
        ],
    };
    assert_eq!(post_process(&mut fuzzer, &input.encode()), Ok(()));
    assert_eq!(fuzzer.post_buf(), b"1\n0\n16\n4\n0\nnote\n3\n-1\n7\n");
    assert_eq!(post_process(&mut fuzzer, &seed().encode()), Ok(()));
    assert_eq!(fuzzer.post_buf(), b"7\n7\n");
    assert_eq!(post_process(&mut fuzzer, &Input::new().encode()), Ok(()));
    assert_eq!(fuzzer.post_buf(), b"7\n");
}

#[test]
fn post_processing_rejects_bytes_that_do_not_decode() {
    let mut fuzzer = new_fuzzer(0, 1);
    fuzzer.alloc_post_buf().extend_from_slice(b"kept");
    assert_eq!(post_process(&mut fuzzer, &[]), Err(DecodeError::UnexpectedEnd));
    assert_eq!(fuzzer.post_buf(), b"kept");
}

#[test]
fn the_two_scratch_buffers_are_independent() {
    let mut fuzzer = new_fuzzer(0, 1);
    let bytes = seed().encode();
    assert_eq!(post_process(&mut fuzzer, &bytes), Ok(()));
    assert_eq!(fuzz(&mut fuzzer, &bytes), Ok(()));
    assert_eq!(fuzzer.post_buf(), b"7\n7\n");
    let fuzzed = fuzzer.fuzz_buf().to_vec();
    assert_eq!(post_process(&mut fuzzer, &bytes), Ok(()));
    assert_eq!(fuzzer.fuzz_buf(), &fuzzed[..]);
}
