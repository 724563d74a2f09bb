use vstd::prelude::*;

pub mod chunks;
pub mod format;

use crate::printf::format::{
    capped, compile_from, content_len, lemma_first_match_bounds, rendered, FormatString,
};
use crate::variadic::{__va_list, Arg};

verus! {

/// The full byte run a format string and an argument sequence format to,
/// unbounded by any buffer: the compiled chunks (the first 64 of them)
/// rendered against the arguments.
pub open spec fn formatted(fmt: Seq<u8>, args: Seq<Arg>) -> Seq<u8> {
    rendered(fmt, capped(compile_from(fmt, 0)), args)
}

/// What one merge call writes into a buffer of a given length: the
/// formatted bytes that fit beside the reserved terminator slot, then the
/// terminating zero byte.
pub open spec fn written_bytes(fmt: Seq<u8>, args: Seq<Arg>, buf_len: int) -> Seq<u8> {
    formatted(fmt, args).take(content_len(formatted(fmt, args), buf_len)) + seq![0u8]
}

/// The relation one vnsprintf call establishes between the buffer before
/// and after it: the written bytes first, the rest of the buffer
/// untouched, and the returned count is the content length.
pub open spec fn vnsprintf_post(
    fmt: Seq<u8>,
    args: Seq<Arg>,
    before: Seq<u8>,
    after: Seq<u8>,
    n: int,
) -> bool {
    &&& n == content_len(formatted(fmt, args), before.len() as int)
    &&& after.len() == before.len()
    &&& after == written_bytes(fmt, args, before.len() as int) + before.subrange(
        n + 1,
        before.len() as int,
    )
}

/// Formats a template string plus a pack of argument values into a
/// caller-owned buffer, truncating at the buffer's capacity and
/// NUL-terminating the content; returns the content length, the
/// terminator not included. The buffer needs at least the one byte that
/// the terminator takes.
pub fn vnsprintf(output: &mut Vec<u8>, format: &[u8], args: __va_list) -> (n: usize)
    requires
        old(output)@.len() >= 1,
    ensures
        vnsprintf_post(format@, args.args@, old(output)@, final(output)@, n as int),
{
    let mut buf: Vec<u8> = Vec::new();
    core::mem::swap(&mut buf, output);
    let compiled = FormatString::from(format);
    let mut va_list = __va_list::as_accessor(args);
    let (filled, n) = compiled.merge(buf, &mut va_list);
    *output = filled;
    n
}

/// A format string containing no `%` marker formats to exactly its own
/// literal bytes, so a merge writes them truncated to the buffer's
/// capacity.
pub proof fn lemma_no_marker_formats_to_literal(fmt: Seq<u8>, args: Seq<Arg>)
    requires
        fmt.len() <= usize::MAX,
        forall|i: int| 0 <= i < fmt.len() ==> fmt[i] != 37,
    ensures
        formatted(fmt, args) == fmt,
{
    lemma_first_match_bounds(fmt, 0, 37);
    if fmt.len() == 0 {
        assert(formatted(fmt, args) =~= fmt);
    } else {
        // a marker found anywhere would contradict the premise
        match crate::printf::format::first_match_from(fmt, 0, 37) {
            Some(p) => {
                assert(false);
            },
            None => {},
        }
        reveal_with_fuel(rendered, 2);
        let cs = compile_from(fmt, 0);
        assert(cs == seq![crate::printf::format::Chunk::Literal(0usize, fmt.len() as usize)]);
        assert(cs.drop_first() =~= Seq::<crate::printf::format::Chunk>::empty());
        assert(formatted(fmt, args) =~= fmt);
    }
}

/// Bounded writes: a merge never writes at or past the buffer's length,
/// and the content never reaches the buffer's last byte, which is kept
/// for the terminator; every byte past the written terminator is left as
/// it was.
pub proof fn lemma_merge_respects_buffer(
    fmt: Seq<u8>,
    args: Seq<Arg>,
    before: Seq<u8>,
    after: Seq<u8>,
    n: int,
)
    requires
        before.len() >= 1,
        vnsprintf_post(fmt, args, before, after, n),
    ensures
        after.len() == before.len(),
        0 <= n <= before.len() - 1,
        after[n] == 0,
        forall|i: int| n < i < before.len() ==> after[i] == before[i],
{
    let w = written_bytes(fmt, args, before.len() as int);
    assert(w.len() == n + 1);
    assert(after[n] == w[n]);
    assert forall|i: int| n < i < before.len() implies after[i] == before[i] by {
        assert(after[i] == before.subrange(n + 1, before.len() as int)[i - n - 1]);
    }
}

/// Determinism: identical format, arguments and buffer size produce
/// byte-identical written output, the terminator included.
pub proof fn lemma_vnsprintf_deterministic(
    fmt: Seq<u8>,
    args: Seq<Arg>,
    b1: Seq<u8>,
    b2: Seq<u8>,
    a1: Seq<u8>,
    a2: Seq<u8>,
    n1: int,
    n2: int,
)
    requires
        b1.len() == b2.len(),
        b1.len() >= 1,
        vnsprintf_post(fmt, args, b1, a1, n1),
        vnsprintf_post(fmt, args, b2, a2, n2),
    ensures
        n1 == n2,
        a1.take(n1 + 1) == a2.take(n1 + 1),
{
    let w = written_bytes(fmt, args, b1.len() as int);
    assert(w.len() == n1 + 1);
    assert(a1.take(n1 + 1) =~= w);
    assert(a2.take(n1 + 1) =~= w);
}

} // verus!
