//! The code generator, end to end: images, wraparound, relocation, errors.

use bfc::compiler::compile;
use bfc::parser::ParseError;
use bfc::stream::Stream;

/// File offset of the machine code inside the image.
const CODE_AT: usize = 0x1c6;

fn build(source: &[u8]) -> Vec<u8> {
    compile(Stream::new(source.to_vec())).unwrap()
}

fn fail(source: &[u8]) -> (usize, usize, &'static str) {
    match compile(Stream::new(source.to_vec())) {
        Ok(_) => panic!("expected a syntax error"),
        Err(ParseError::Syntax(e)) => (e.line, e.column, e.message),
    }
}

fn le32_at(image: &[u8], at: usize) -> i64 {
    let unsigned = image[at] as i64 + ((image[at + 1] as i64) << 8) + ((image[at + 2] as i64) << 16)
        + ((image[at + 3] as i64) << 24);
    if unsigned >= 0x8000_0000 {
        unsigned - 0x1_0000_0000
    } else {
        unsigned
    }
}

#[test]
fn empty_program_compiles_to_minimal_image() {
    let image = build(b"");
    // headers, 52-byte prologue, 79-byte final flush guard, 10-byte exit
    assert_eq!(image.len(), CODE_AT + 141);
    assert_eq!(&image[0..4], &[0x7f, 0x45, 0x4c, 0x46]);
    assert_eq!(&image[24..32], &[0xc6, 0x01, 0x00, 0x00, 0x00, 0x10, 0x00, 0x00]);
    // text size fields hold the code length
    assert_eq!(le32_at(&image, 96), 141);
    // the zero-fill segment holds tape and both buffers: 30000 + 16 + 16
    assert_eq!(le32_at(&image, 160), 30032);
    // the prologue loads the three region addresses in allocation order
    assert_eq!(
        &image[CODE_AT..CODE_AT + 10],
        &[0x48, 0xbb, 0x00, 0x00, 0x00, 0x00, 0x00, 0x60, 0x00, 0x00],
    );
    assert_eq!(
        &image[CODE_AT + 10..CODE_AT + 20],
        &[0x49, 0xbe, 0x30, 0x75, 0x00, 0x00, 0x00, 0x60, 0x00, 0x00],
    );
    assert_eq!(
        &image[CODE_AT + 20..CODE_AT + 30],
        &[0x48, 0xbc, 0x40, 0x75, 0x00, 0x00, 0x00, 0x60, 0x00, 0x00],
    );
    // the image ends in the exit sequence with status 0
    let n = image.len();
    assert_eq!(&image[n - 10..], &[0xb8, 0x3c, 0x00, 0x00, 0x00, 0x48, 0x31, 0xff, 0x0f, 0x05]);
}

#[test]
fn shift_by_tape_length_is_a_no_op() {
    let image = build(&vec![b'>'; 30000]);
    assert_eq!(image, build(b""));
}

#[test]
fn shift_right_emits_add_and_subtract_correction() {
    let image = build(b">");
    let code = &image[CODE_AT + 52..];
    // add r8, 1; then copy, subtract tape length, conditionally move back
    assert_eq!(&code[0..4], &[0x49, 0x83, 0xc0, 0x01]);
    assert_eq!(&code[4..7], &[0x4d, 0x89, 0xc7]);
    assert_eq!(&code[7..10], &[0x4d, 0x29, 0xcf]);
    assert_eq!(&code[10..14], &[0x4d, 0x0f, 0x43, 0xc7]);
}

#[test]
fn shift_left_emits_add_and_sign_corrected_wrap() {
    let image = build(b"<");
    let code = &image[CODE_AT + 52..];
    // add r8, -1; skip the correction unless the sign flag is set
    assert_eq!(&code[0..4], &[0x49, 0x83, 0xc0, 0xff]);
    assert_eq!(&code[4..6], &[0x0f, 0x89]);
    assert_eq!(le32_at(&image, CODE_AT + 52 + 6), 3);
    assert_eq!(&code[10..13], &[0x4d, 0x01, 0xc8]);
}

#[test]
fn folded_run_reduces_modulo_tape_length() {
    // 30001 shifts right reduce to a single shift by 1
    let long = build(&vec![b'>'; 30001]);
    assert_eq!(long, build(b">"));
    // a run of five then an increment compiles the folded delta 5
    let image = build(b">>>>>+");
    let code = &image[CODE_AT + 52..];
    assert_eq!(&code[0..4], &[0x49, 0x83, 0xc0, 0x05]);
    // the increment follows the wraparound correction
    assert_eq!(&code[14..18], &[0x42, 0xfe, 0x04, 0x03]);
}

#[test]
fn large_folded_shift_uses_wide_immediate() {
    let image = build(&vec![b'>'; 16000]);
    let code = &image[CODE_AT + 52..];
    assert_eq!(&code[0..3], &[0x49, 0x81, 0xc0]);
    assert_eq!(le32_at(&image, CODE_AT + 52 + 3), 16000);
}

#[test]
fn increment_run_of_256_is_a_no_op_on_the_cell() {
    let image = build(&vec![b'+'; 256]);
    assert_eq!(image, build(b""));
}

#[test]
fn decrement_wraps_to_255() {
    // a single decrement and a run of 255 increments encode identically
    let image = build(b"-");
    assert_eq!(image, build(&vec![b'+'; 255]));
    let code = &image[CODE_AT + 52..];
    assert_eq!(&code[0..4], &[0x42, 0xfe, 0x0c, 0x03]);
}

#[test]
fn cell_arithmetic_picks_the_smallest_encoding() {
    // +1: inc; -1: dec; anything else: add with an 8-bit immediate
    let code = build(b"+");
    assert_eq!(&code[CODE_AT + 52..CODE_AT + 56], &[0x42, 0xfe, 0x04, 0x03]);
    let code = build(b"++");
    assert_eq!(&code[CODE_AT + 52..CODE_AT + 57], &[0x42, 0x80, 0x04, 0x03, 0x02]);
}

#[test]
fn loop_branches_resolve_to_their_labels() {
    let image = build(b"[]");
    let code = &image[CODE_AT..];
    // loop head: compare the cell with 0, branch forward if equal
    assert_eq!(&code[52..57], &[0x42, 0x80, 0x3c, 0x03, 0x00]);
    assert_eq!(&code[57..59], &[0x0f, 0x84]);
    // loop end: compare again, branch backward if not equal
    assert_eq!(&code[63..68], &[0x42, 0x80, 0x3c, 0x03, 0x00]);
    assert_eq!(&code[68..70], &[0x0f, 0x85]);
    // forward displacement from the window at 59 lands on the end label at 74
    assert_eq!(le32_at(&image, CODE_AT + 59) + 59 + 4, 74);
    // backward displacement from the window at 70 lands on the head at 63
    assert_eq!(le32_at(&image, CODE_AT + 70) + 70 + 4, 63);
}

#[test]
fn unmatched_open_bracket_is_reported_at_its_position() {
    let (line, column, message) = fail(b"[");
    assert_eq!((line, column), (1, 1));
    assert_eq!(message, "unmatched [");
    let (line, column, message) = fail(b"ab[+");
    assert_eq!((line, column), (1, 3));
    assert_eq!(message, "unmatched [");
    // the innermost open loop is the one reported
    let (_, column, _) = fail(b"[[]");
    assert_eq!(column, 1);
}

#[test]
fn unmatched_close_bracket_is_reported_at_its_position() {
    let (line, column, message) = fail(b"]");
    assert_eq!((line, column), (1, 1));
    assert_eq!(message, "unmatched ]");
    let (line, column, message) = fail(b"+]+");
    assert_eq!((line, column), (1, 2));
    assert_eq!(message, "unmatched ]");
    let (_, column, _) = fail(b"[]]");
    assert_eq!(column, 3);
}

#[test]
fn balanced_brackets_compile() {
    assert!(compile(Stream::new(b"[[]][]".to_vec())).is_ok());
    assert!(compile(Stream::new(b"++[->+<]".to_vec())).is_ok());
    assert!(compile(Stream::new(b"[[][]][],.".to_vec())).is_ok());
}

#[test]
fn write_code_flushes_at_the_buffer_size() {
    let image = build(b".");
    let code = &image[CODE_AT + 52..];
    // copy the cell out, bump the cursor
    assert_eq!(&code[0..4], &[0x46, 0x8a, 0x3c, 0x03]);
    assert_eq!(&code[4..8], &[0x46, 0x88, 0x3c, 0x2c]);
    assert_eq!(&code[8..11], &[0x49, 0xff, 0xc5]);
    // flush on a newline
    assert_eq!(&code[11..15], &[0x41, 0x80, 0xff, 0x0a]);
    // or when the cursor reaches the buffer size, 16
    assert_eq!(&code[21..28], &[0x49, 0x81, 0xfd, 0x10, 0x00, 0x00, 0x00]);
}

#[test]
fn read_code_refills_a_16_byte_buffer() {
    let image = build(b",");
    let code = &image[CODE_AT + 52..];
    // buffer exhausted test: cmp r10, r12
    assert_eq!(&code[0..3], &[0x4d, 0x39, 0xe2]);
    // the read syscall asks for the full input buffer: mov edx, 16
    let needle: &[u8] = &[0xba, 0x10, 0x00, 0x00, 0x00];
    assert!(code.windows(needle.len()).any(|w| w == needle));
}

#[test]
fn multi_line_errors_carry_the_brackets_line_and_column() {
    let (line, column, message) = fail(b"+\n[");
    assert_eq!((line, column), (2, 1));
    assert_eq!(message, "unmatched [");
    let (line, column, message) = fail(b"ab\n+]");
    assert_eq!((line, column), (2, 2));
    assert_eq!(message, "unmatched ]");
    let (line, column, message) = fail(b"[\n]\n]");
    assert_eq!((line, column), (3, 1));
    assert_eq!(message, "unmatched ]");
}

#[test]
fn comment_heavy_source_compiles() {
    // nine mebibytes of comments around a three-token program: the token
    // bound constrains operators, not source size
    let mut source = vec![b'a'; 9 * 1024 * 1024];
    source.extend_from_slice(b"+.\n");
    source.extend_from_slice(&vec![b'b'; 1024]);
    source.push(b'-');
    let image = build(&source);
    assert_eq!(&image[0..4], &[0x7f, 0x45, 0x4c, 0x46]);
    // increment, write, decrement
    assert_eq!(&image[CODE_AT + 52..CODE_AT + 56], &[0x42, 0xfe, 0x04, 0x03]);
}

#[test]
fn largest_source_compiles() {
    // the longest accepted source: one huge folded run
    let image = build(&vec![b'>'; 0x0080_0000]);
    let code = &image[CODE_AT + 52..];
    // 0x0080_0000 mod 30000 is 18608, which needs the 32-bit immediate
    assert_eq!(&code[0..3], &[0x49, 0x81, 0xc0]);
    assert_eq!(le32_at(&image, CODE_AT + 52 + 3), 0x0080_0000 % 30000);
}
