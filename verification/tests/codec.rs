use lotus3::zip::unpack;
use lotus3::ErrorKind;

// A stream with no tree records: counter 1 configures slot 0x41 with two
// leaf candidates; the escape byte passes values straight to the automaton.
//
// Layout: counter, escape, one record (idx, left, right), then tokens.

#[test]
fn unpack_rejects_empty_input() {
    assert_eq!(unpack(&[]), Err(ErrorKind::DecodeError));
}

#[test]
fn unpack_rejects_zero_counter() {
    assert_eq!(unpack(&[0, 0x1b]), Err(ErrorKind::DecodeError));
    assert_eq!(unpack(&[0]), Err(ErrorKind::DecodeError));
}

#[test]
fn unpack_rejects_truncated_table() {
    // counter says two records but only one and a half follow
    assert_eq!(
        unpack(&[2, 0x1b, 0x41, 0x30, 0x31, 0x42]),
        Err(ErrorKind::DecodeError)
    );
}

#[test]
fn unpack_literal_copy_run() {
    // counter 1, escape 0x1b, record (0x41 -> 0x30, 0x31).
    // Tokens: escape+0x03 begins a three-byte copy; 0x10,0x11,0x12 are
    // unconfigured slots resolving to themselves, appended literally.
    let data = [1, 0x1b, 0x41, 0x30, 0x31, 0x1b, 0x03, 0x10, 0x11, 0x12];
    assert_eq!(unpack(&data), Ok(vec![0x10, 0x11, 0x12]));
}

#[test]
fn unpack_fill_run() {
    // escape+0x85 begins a fill of five; the next resolved byte 0x2a is the
    // fill value (slot 0x2a is unconfigured, so it resolves to itself).
    let data = [1, 0x1b, 0x41, 0x30, 0x31, 0x1b, 0x85, 0x2a];
    assert_eq!(unpack(&data), Ok(vec![0x2a; 5]));
}

#[test]
fn unpack_tree_descent_substitutes() {
    // Slot 0x41 holds candidates 0x30 (left) and 0x31 (right), both leaves.
    // Begin a two-byte copy, then feed the configured symbol 0x41: the
    // descent pushes the right sibling and emits left then right.
    let data = [1, 0x1b, 0x41, 0x30, 0x31, 0x1b, 0x02, 0x41];
    assert_eq!(unpack(&data), Ok(vec![0x30, 0x31]));
}

#[test]
fn unpack_terminates_on_zero_select() {
    // escape+0x00 in the select state ends the stream; trailing bytes are
    // never read.
    let data = [1, 0x1b, 0x41, 0x30, 0x31, 0x1b, 0x00, 0x77, 0x77];
    assert_eq!(unpack(&data), Ok(vec![]));
}

#[test]
fn unpack_escape_needs_a_second_byte() {
    let data = [1, 0x1b, 0x41, 0x30, 0x31, 0x1b];
    assert_eq!(unpack(&data), Err(ErrorKind::DecodeError));
}

#[test]
fn unpack_end_of_tokens_ends_stream() {
    // The token stream may simply end; whatever was emitted so far stands.
    let data = [1, 0x1b, 0x41, 0x30, 0x31, 0x1b, 0x02, 0x10];
    assert_eq!(unpack(&data), Ok(vec![0x10]));
}

#[test]
fn unpack_deterministic() {
    let data = [1, 0x1b, 0x41, 0x30, 0x31, 0x1b, 0x03, 0x10, 0x11, 0x12];
    let a = unpack(&data);
    let b = unpack(&data);
    assert_eq!(a, b);
}

#[test]
fn unpack_nested_tree_descends_and_unstacks() {
    // two records: slot 0x50 holds two leaves; slot 0x51 holds the branch
    // 0x50 on the left and a leaf on the right.  One token then expands to
    // three bytes: the branch's leaves in order, then the pending sibling.
    let data = [
        2, 0x1b, // counter, escape
        0x50, 0x10, 0x11, // record: leaves 0x10 / 0x11
        0x51, 0x50, 0x12, // record: branch 0x50 / leaf 0x12
        0x1b, 0x03, // begin a three-byte copy
        0x51, // one symbol resolves all three bytes
    ];
    assert_eq!(unpack(&data), Ok(vec![0x10, 0x11, 0x12]));
}
