use tinyprintf::atoi::atoi_usize;
use tinyprintf::printf::format::{DecimalFormat, FormatOutput, FormatSpec, FormatString};
use tinyprintf::variadic::{Arg, __va_list};

fn pack(args: Vec<Arg>) -> __va_list {
    __va_list { args }
}

#[test]
fn vnsprintf() {
    let mut output: Vec<u8> = vec![0; 128];

    let n = tinyprintf::printf::vnsprintf(&mut output, b"Hi there %d", pack(vec![Arg::Uint(42)]));

    assert_eq!(n, 11);
    assert_eq!(&output[0..12], b"Hi there 42\0");
}

#[test]
fn parse_simple_number_format() {
    let fmt = FormatSpec::parse_simple_number_format(b"");
    assert_eq!(fmt, DecimalFormat::Unconstrained);

    let fmt = FormatSpec::parse_simple_number_format(b"32");
    assert_eq!(fmt, DecimalFormat::SpaceFilled(32));

    let fmt = FormatSpec::parse_simple_number_format(b"032");
    assert_eq!(fmt, DecimalFormat::ZeroFilled(32));

    let fmt = FormatSpec::parse_simple_number_format(b"-32");
    assert_eq!(fmt, DecimalFormat::LeftJustified(32));
}

#[test]
fn merge_single_decimal() {
    let mut output: Vec<u8> = vec![0; 128];
    let n = tinyprintf::printf::vnsprintf(&mut output, b"%d", pack(vec![Arg::Uint(42)]));
    assert_eq!(n, 2);
    assert_eq!(&output[0..3], b"42\0");
}

#[test]
fn format_string_merge() {
    let fmt = FormatString::from(b"%d howdy [0x%x]");
    let mut va_list = __va_list::as_accessor(pack(vec![Arg::Uint(42), Arg::Uint(42)]));
    let output: Vec<u8> = vec![0; 128];
    let (output, n) = fmt.merge(output, &mut va_list);
    assert_eq!(n, 15);
    assert_eq!(&output[0..15], b"42 howdy [0x2a]");
    // under the NUL-terminating contract the terminator follows directly
    assert_eq!(output[15], 0);
}

#[test]
fn plain_format_is_copied_verbatim() {
    let mut output: Vec<u8> = vec![0; 128];
    let n = tinyprintf::printf::vnsprintf(&mut output, b"no conversions here", pack(vec![]));
    assert_eq!(n, 19);
    assert_eq!(&output[0..20], b"no conversions here\0");
}

#[test]
fn plain_format_is_truncated_to_capacity() {
    let mut output: Vec<u8> = vec![0; 4];
    let n = tinyprintf::printf::vnsprintf(&mut output, b"abcdef", pack(vec![]));
    assert_eq!(n, 3);
    assert_eq!(&output[..], b"abc\0");
}

#[test]
fn merge_never_writes_past_the_buffer() {
    let mut output: Vec<u8> = vec![0xee; 6];
    let n = tinyprintf::printf::vnsprintf(&mut output, b"%d and more text", pack(vec![Arg::Uint(12345)]));
    // five content bytes fit; the last byte is reserved for the terminator
    assert_eq!(n, 5);
    assert_eq!(&output[..], b"12345\0");

    let mut output: Vec<u8> = vec![0xee; 6];
    let n = tinyprintf::printf::vnsprintf(&mut output, b"ab", pack(vec![]));
    // bytes past the terminator are left exactly as they were
    assert_eq!(n, 2);
    assert_eq!(&output[..], &[b'a', b'b', 0, 0xee, 0xee, 0xee]);
}

#[test]
fn identical_inputs_give_identical_output() {
    let mut first: Vec<u8> = vec![0; 32];
    let mut second: Vec<u8> = vec![0; 32];
    let n1 = tinyprintf::printf::vnsprintf(&mut first, b"%x-%o-%d", pack(vec![
        Arg::Uint(3054),
        Arg::Uint(64),
        Arg::Uint(99),
    ]));
    let n2 = tinyprintf::printf::vnsprintf(&mut second, b"%x-%o-%d", pack(vec![
        Arg::Uint(3054),
        Arg::Uint(64),
        Arg::Uint(99),
    ]));
    assert_eq!(n1, n2);
    assert_eq!(first, second);
}

#[test]
fn unrecognized_conversion_produces_no_bytes() {
    // the `q` is swallowed as flags junk of the following `d`, which still
    // consumes one correctly aligned decimal argument
    let mut output: Vec<u8> = vec![0; 16];
    let n = tinyprintf::printf::vnsprintf(&mut output, b"%qd", pack(vec![Arg::Uint(7)]));
    assert_eq!(n, 1);
    assert_eq!(&output[0..2], b"7\0");
}

#[test]
fn unterminated_marker_drops_the_tail() {
    let mut output: Vec<u8> = vec![0; 16];
    let n = tinyprintf::printf::vnsprintf(&mut output, b"ab%q", pack(vec![]));
    assert_eq!(n, 2);
    assert_eq!(&output[0..3], b"ab\0");
}

#[test]
fn octal_rendering() {
    let mut output: Vec<u8> = vec![0; 16];
    let n = tinyprintf::printf::vnsprintf(&mut output, b"%o", pack(vec![Arg::Uint(8)]));
    assert_eq!(n, 2);
    assert_eq!(&output[0..3], b"10\0");
}

#[test]
fn hexadecimal_rendering_is_lowercase_without_prefix() {
    let mut output: Vec<u8> = vec![0; 16];
    let n = tinyprintf::printf::vnsprintf(&mut output, b"%x", pack(vec![Arg::Uint(255)]));
    assert_eq!(n, 2);
    assert_eq!(&output[0..3], b"ff\0");
}

#[test]
fn char_rendering() {
    let mut output: Vec<u8> = vec![0; 16];
    let n = tinyprintf::printf::vnsprintf(&mut output, b"<%c>", pack(vec![Arg::Char(b'A')]));
    assert_eq!(n, 3);
    assert_eq!(&output[0..4], b"<A>\0");
}

#[test]
fn string_rendering() {
    let mut output: Vec<u8> = vec![0; 16];
    let n = tinyprintf::printf::vnsprintf(&mut output, b"%s!", pack(vec![Arg::Str(b"hi".to_vec())]));
    assert_eq!(n, 3);
    assert_eq!(&output[0..4], b"hi!\0");
}

#[test]
fn string_rendering_is_truncated_to_capacity() {
    let mut output: Vec<u8> = vec![0; 5];
    let n = tinyprintf::printf::vnsprintf(&mut output, b"%s", pack(vec![Arg::Str(b"longer than that".to_vec())]));
    assert_eq!(n, 4);
    assert_eq!(&output[..], b"long\0");
}

#[test]
fn unimplemented_kinds_emit_nothing_and_read_nothing() {
    // %u parses but has no merge logic: no bytes, and no argument read, so
    // the following %d still sees the first value
    let mut output: Vec<u8> = vec![0; 16];
    let n = tinyprintf::printf::vnsprintf(&mut output, b"%u%d", pack(vec![Arg::Uint(5)]));
    assert_eq!(n, 1);
    assert_eq!(&output[0..2], b"5\0");

    let mut output: Vec<u8> = vec![0; 16];
    let n = tinyprintf::printf::vnsprintf(&mut output, b"a%eb%fc", pack(vec![]));
    assert_eq!(n, 3);
    assert_eq!(&output[0..4], b"abc\0");
}

#[test]
fn mismatched_argument_is_consumed_but_renders_nothing() {
    let mut output: Vec<u8> = vec![0; 16];
    let n = tinyprintf::printf::vnsprintf(&mut output, b"%d%d", pack(vec![
        Arg::Str(b"oops".to_vec()),
        Arg::Uint(3),
    ]));
    assert_eq!(n, 1);
    assert_eq!(&output[0..2], b"3\0");
}

#[test]
fn exhausted_cursor_renders_nothing() {
    let mut output: Vec<u8> = vec![0; 16];
    let n = tinyprintf::printf::vnsprintf(&mut output, b"a%db", pack(vec![]));
    assert_eq!(n, 2);
    assert_eq!(&output[0..3], b"ab\0");
}

#[test]
fn chunk_store_truncates_past_its_capacity() {
    // 70 conversions compile to 70 chunks, of which the store keeps 64
    let format: Vec<u8> = b"%c".iter().copied().cycle().take(140).collect();
    let args: Vec<Arg> = (0..70).map(|_| Arg::Char(b'y')).collect();
    let mut output: Vec<u8> = vec![0; 128];
    let n = tinyprintf::printf::vnsprintf(&mut output, &format, pack(args));
    assert_eq!(n, 64);
    assert!(output[0..64].iter().all(|&b| b == b'y'));
    assert_eq!(output[64], 0);
}

#[test]
fn format_spec_from_maps_conversion_characters() {
    assert_eq!(FormatSpec::from(b"d"), Some(FormatSpec::Decimal(DecimalFormat::Unconstrained)));
    assert_eq!(
        FormatSpec::from(b"032x"),
        Some(FormatSpec::Hexadecimal(DecimalFormat::ZeroFilled(32)))
    );
    assert_eq!(FormatSpec::from(b"c"), Some(FormatSpec::Char));
    assert_eq!(FormatSpec::from(b"7s"), Some(FormatSpec::String));
    assert_eq!(FormatSpec::from(b"q"), None);
}

#[test]
fn atoi_scans_the_digit_prefix() {
    assert_eq!(atoi_usize(b""), None);
    assert_eq!(atoi_usize(b"abc"), None);
    assert_eq!(atoi_usize(b"12ab"), Some(12));
    assert_eq!(atoi_usize(b"0"), Some(0));
    assert_eq!(atoi_usize(b"4096"), Some(4096));
}

#[test]
fn va_arg_yields_values_in_order() {
    let mut cursor = __va_list::as_accessor(pack(vec![Arg::Uint(1), Arg::Char(b'z')]));
    assert!(matches!(cursor.va_arg(), Some(Arg::Uint(1))));
    assert!(matches!(cursor.va_arg(), Some(Arg::Char(b'z'))));
    assert!(matches!(cursor.va_arg(), None));
}

#[test]
fn format_output_truncates_and_reports_the_written_prefix() {
    let buffer: Vec<u8> = vec![0; 6];
    let mut out = FormatOutput::wrap(buffer);
    assert_eq!(out.write_bytes(b"abc"), 3);
    // only two more bytes fit beside the reserved terminator slot
    assert_eq!(out.write_bytes(b"defg"), 2);
    assert_eq!(out.as_bytes(), b"abcde");
    let (buffer, pos) = out.into_parts();
    assert_eq!(pos, 5);
    assert_eq!(&buffer[..], b"abcde\0");
}
