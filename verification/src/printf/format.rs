use vstd::prelude::*;
use vstd::slice::{slice_index_get, slice_subrange};
use crate::atoi::{atoi_spec, atoi_usize};
use crate::printf::chunks::{chunk_seq, chunks_get, chunks_len, chunks_new, chunks_push};
use crate::variadic::{Arg, VaList};
use vstd::pervasive::VecAdditionalExecFns;

verus! {

/// The width/pad policy carried by a numeric conversion. Widths are parsed
/// and retained but not applied by the writer.
#[derive(Debug, Clone, Copy, PartialEq, Eq, Structural)]
pub enum DecimalFormat {
    Unconstrained,
    SpaceFilled(usize),
    ZeroFilled(usize),
    LeftJustified(usize),
}

/// The tagged conversion kind of one `%...X` directive. The float variants
/// and `UnsignedDecimal` are valid parse results but produce no output
/// bytes on merge and read no argument.
#[derive(Debug, Clone, Copy, PartialEq, Eq, Structural)]
pub enum FormatSpec {
    Char,
    Decimal(DecimalFormat),
    ExponentialFloatingPoint,
    FloatingPoint,
    Integer(DecimalFormat),
    Octal(DecimalFormat),
    String,
    UnsignedDecimal(DecimalFormat),
    Hexadecimal(DecimalFormat),
}

/// One compiled piece of a format string: a literal span of the format
/// bytes, given as a half-open index range into them, or one conversion.
#[derive(Debug, Clone, Copy, PartialEq, Eq, Structural)]
pub enum Chunk {
    Literal(usize, usize),
    Format(FormatSpec),
}

/// A byte is a recognized conversion character, one of `c d e f i o s u x`
/// (ASCII 99, 100, 101, 102, 105, 111, 115, 117, 120).
pub open spec fn spec_is_spec_type(c: u8) -> bool {
    c == 99 || c == 100 || c == 101 || c == 102 || c == 105 || c == 111 || c == 115 || c == 117
        || c == 120
}

/// The pad policy that a flags/width sub-span denotes: empty means
/// unconstrained; a leading `-` or `0` selects left-justified or
/// zero-filled with the width scanned from the remainder; anything else is
/// space-filled with the width scanned from the whole sub-span; whenever no
/// digits are found the policy falls back to unconstrained.
pub open spec fn pad_policy_of(f: Seq<u8>) -> DecimalFormat {
    if f.len() == 0 {
        DecimalFormat::Unconstrained
    } else if f[0] == 45 {
        match atoi_spec(f.drop_first()) {
            Some(n) => DecimalFormat::LeftJustified(n),
            None => DecimalFormat::Unconstrained,
        }
    } else if f[0] == 48 {
        match atoi_spec(f.drop_first()) {
            Some(n) => DecimalFormat::ZeroFilled(n),
            None => DecimalFormat::Unconstrained,
        }
    } else {
        match atoi_spec(f) {
            Some(n) => DecimalFormat::SpaceFilled(n),
            None => DecimalFormat::Unconstrained,
        }
    }
}

/// The conversion that a non-empty `%`-less spec sub-span (flags, width and
/// final conversion character) denotes, or nothing when the final character
/// is not a recognized conversion character.
pub open spec fn spec_parse_format_spec(s: Seq<u8>) -> Option<FormatSpec>
    recommends
        s.len() > 0,
{
    let c = s[s.len() - 1];
    let flags = s.take(s.len() - 1);
    // c, d, e, f, i, o, s, u, x in ASCII
    if c == 99 {
        Some(FormatSpec::Char)
    } else if c == 100 {
        Some(FormatSpec::Decimal(pad_policy_of(flags)))
    } else if c == 101 {
        Some(FormatSpec::ExponentialFloatingPoint)
    } else if c == 102 {
        Some(FormatSpec::FloatingPoint)
    } else if c == 105 {
        Some(FormatSpec::Integer(pad_policy_of(flags)))
    } else if c == 111 {
        Some(FormatSpec::Octal(pad_policy_of(flags)))
    } else if c == 115 {
        Some(FormatSpec::String)
    } else if c == 117 {
        Some(FormatSpec::UnsignedDecimal(pad_policy_of(flags)))
    } else if c == 120 {
        Some(FormatSpec::Hexadecimal(pad_policy_of(flags)))
    } else {
        None
    }
}

impl FormatSpec {
    /// Parses one conversion spec from the bytes between a `%` marker and
    /// its conversion character, the conversion character included.
    pub fn from(spec: &[u8]) -> (r: Option<FormatSpec>)
        requires
            spec@.len() >= 1,
        ensures
            r == spec_parse_format_spec(spec@),
    {
        let len = spec.len();
        let c = *slice_index_get(spec, len - 1);
        let flags = slice_subrange(spec, 0, len - 1);
        proof {
            assert(flags@ =~= spec@.take(spec@.len() - 1));
        }
        // c, d, e, f, i, o, s, u, x in ASCII
        if c == 99 {
            Some(FormatSpec::Char)
        } else if c == 100 {
            Some(FormatSpec::Decimal(Self::parse_simple_number_format(flags)))
        } else if c == 101 {
            Some(FormatSpec::ExponentialFloatingPoint)
        } else if c == 102 {
            Some(FormatSpec::FloatingPoint)
        } else if c == 105 {
            Some(FormatSpec::Integer(Self::parse_simple_number_format(flags)))
        } else if c == 111 {
            Some(FormatSpec::Octal(Self::parse_simple_number_format(flags)))
        } else if c == 115 {
            Some(FormatSpec::String)
        } else if c == 117 {
            Some(FormatSpec::UnsignedDecimal(Self::parse_simple_number_format(flags)))
        } else if c == 120 {
            Some(FormatSpec::Hexadecimal(Self::parse_simple_number_format(flags)))
        } else {
            None
        }
    }

    /// Parses a flags/width sub-span into its pad policy.
    pub fn parse_simple_number_format(fmt: &[u8]) -> (r: DecimalFormat)
        ensures
            r == pad_policy_of(fmt@),
    {
        if fmt.len() == 0 {
            return DecimalFormat::Unconstrained;
        }

        let first = *slice_index_get(fmt, 0);

        // a leading minus sign (45) or zero digit (48) selects the policy
        if first == 45 {
            let rest = slice_subrange(fmt, 1, fmt.len());
            proof {
                assert(rest@ =~= fmt@.drop_first());
            }
            let num = atoi_usize(rest);
            if let Some(num) = num {
                return DecimalFormat::LeftJustified(num);
            }
        } else if first == 48 {
            let rest = slice_subrange(fmt, 1, fmt.len());
            proof {
                assert(rest@ =~= fmt@.drop_first());
            }
            let num = atoi_usize(rest);
            if let Some(num) = num {
                return DecimalFormat::ZeroFilled(num);
            }
        } else {
            let num = atoi_usize(fmt);
            if let Some(num) = num {
                return DecimalFormat::SpaceFilled(num);
            }
        }

        DecimalFormat::Unconstrained
    }
}


fn is_spec_type(c: u8) -> (r: bool)
    ensures
        r == spec_is_spec_type(c),
{
    if c == 99 || c == 100 || c == 101 || c == 102 || c == 105 || c == 111 || c == 115 || c == 117
        || c == 120 {
        true
    } else {
        false
    }
}

/// Index of the first occurrence of a byte at or after a position.
pub open spec fn first_match_from(s: Seq<u8>, i: int, needle: u8) -> Option<int>
    decreases s.len() - i,
{
    if i < 0 || i >= s.len() {
        None
    } else if s[i] == needle {
        Some(i)
    } else {
        first_match_from(s, i + 1, needle)
    }
}

/// Index of the first recognized conversion character at or after a position.
pub open spec fn first_spec_type_from(s: Seq<u8>, i: int) -> Option<int>
    decreases s.len() - i,
{
    if i < 0 || i >= s.len() {
        None
    } else if spec_is_spec_type(s[i]) {
        Some(i)
    } else {
        first_spec_type_from(s, i + 1)
    }
}

pub proof fn lemma_first_match_bounds(s: Seq<u8>, i: int, needle: u8)
    requires
        0 <= i,
    ensures
        first_match_from(s, i, needle) matches Some(p) ==> i <= p < s.len() && s[p] == needle,
    decreases s.len() - i,
{
    if i < s.len() && s[i] != needle {
        lemma_first_match_bounds(s, i + 1, needle);
    }
}

proof fn lemma_first_spec_type_bounds(s: Seq<u8>, i: int)
    requires
        0 <= i,
    ensures
        first_spec_type_from(s, i) matches Some(p) ==> i <= p < s.len() && spec_is_spec_type(s[p]),
    decreases s.len() - i,
{
    if i < s.len() && !spec_is_spec_type(s[i]) {
        lemma_first_spec_type_bounds(s, i + 1);
    }
}

fn find_from(s: &[u8], from: usize, needle: u8) -> (r: Option<usize>)
    ensures
        first_match_from(s@, from as int, needle) == (match r {
            Some(k) => Some(k as int),
            None => None,
        }),
{
    let len = s.len();
    let mut i: usize = from;
    while i < len
        invariant
            len == s@.len(),
            first_match_from(s@, from as int, needle) == first_match_from(s@, i as int, needle),
        decreases len - i,
    {
        if *slice_index_get(s, i) == needle {
            return Some(i);
        }
        i += 1;
    }
    None
}

fn find_spec_type_from(s: &[u8], from: usize) -> (r: Option<usize>)
    ensures
        first_spec_type_from(s@, from as int) == (match r {
            Some(k) => Some(k as int),
            None => None,
        }),
{
    let len = s.len();
    let mut i: usize = from;
    while i < len
        invariant
            len == s@.len(),
            first_spec_type_from(s@, from as int) == first_spec_type_from(s@, i as int),
        decreases len - i,
    {
        if is_spec_type(*slice_index_get(s, i)) {
            return Some(i);
        }
        i += 1;
    }
    None
}

/// The chunk sequence a format compiles to, scanning from a cursor: bytes
/// up to the next `%` marker become a literal chunk; from the marker, the
/// bytes after it up to and including the first recognized conversion
/// character are parsed as one conversion spec; a marker with no
/// conversion character before the end of the string drops the tail.
pub open spec fn compile_from(fmt: Seq<u8>, cur: int) -> Seq<Chunk>
    decreases fmt.len() - cur,
        via compile_from_decreases
{
    if cur < 0 || cur >= fmt.len() {
        Seq::empty()
    } else {
        match first_match_from(fmt, cur, 37) {
            None => seq![Chunk::Literal(cur as usize, fmt.len() as usize)],
            Some(p) => {
                let lead: Seq<Chunk> = if p > cur {
                    seq![Chunk::Literal(cur as usize, p as usize)]
                } else {
                    Seq::empty()
                };
                match first_spec_type_from(fmt, p) {
                    None => lead,
                    Some(sp) => {
                        let tail = compile_from(fmt, sp + 1);
                        match spec_parse_format_spec(fmt.subrange(p + 1, sp + 1)) {
                            Some(fs) => lead + seq![Chunk::Format(fs)] + tail,
                            None => lead + tail,
                        }
                    },
                }
            },
        }
    }
}

#[via_fn]
proof fn compile_from_decreases(fmt: Seq<u8>, cur: int) {
    if 0 <= cur < fmt.len() {
        lemma_first_match_bounds(fmt, cur, 37);
        match first_match_from(fmt, cur, 37) {
            Some(p) => {
                lemma_first_spec_type_bounds(fmt, p);
            },
            None => {},
        }
    }
}


/// A chunk's literal span lies inside the format bytes.
pub open spec fn chunk_wf(fmt: Seq<u8>, c: Chunk) -> bool {
    match c {
        Chunk::Literal(a, b) => a <= b <= fmt.len(),
        Chunk::Format(_) => true,
    }
}

/// Every chunk's literal span lies inside the format bytes.
pub open spec fn chunks_wf(fmt: Seq<u8>, cs: Seq<Chunk>) -> bool {
    forall|i: int| 0 <= i < cs.len() ==> chunk_wf(fmt, #[trigger] cs[i])
}

/// The chunks of a compiled sequence that fit the bounded store: all of
/// them, or the first 64 when there are more.
pub open spec fn capped(cs: Seq<Chunk>) -> Seq<Chunk> {
    if cs.len() <= 64 {
        cs
    } else {
        cs.take(64)
    }
}

proof fn lemma_capped_push(cs: Seq<Chunk>, c: Chunk)
    ensures
        cs.len() < 64 ==> capped(cs.push(c)) == capped(cs).push(c),
        cs.len() >= 64 ==> capped(cs.push(c)) == capped(cs),
{
    if cs.len() < 64 {
        assert(capped(cs.push(c)) =~= capped(cs).push(c));
    } else {
        assert(cs.push(c).take(64) =~= capped(cs));
    }
}

/// A compiled format: a reference to the original format bytes plus the
/// bounded chunk sequence compiled from them. Immutable once built; when
/// compilation yields more chunks than the store can hold, the excess
/// chunks are dropped, so a compiled format holds the first 64.
pub struct FormatString<'a> {
    format: &'a [u8],
    chunks: heapless::Vec<Chunk, 64>,
}

impl<'a> FormatString<'a> {
    /// The format bytes this compiled format was built from.
    pub closed spec fn fmt_bytes(&self) -> Seq<u8> {
        self.format@
    }

    /// The compiled chunks, in order.
    pub closed spec fn chunk_model(&self) -> Seq<Chunk> {
        chunk_seq(self.chunks)
    }

    /// Every literal chunk points inside the format bytes.
    pub open spec fn wf(&self) -> bool {
        chunks_wf(self.fmt_bytes(), self.chunk_model())
    }

    /// Compiles a format string into its ordered chunk sequence.
    pub fn from(format: &'a [u8]) -> (r: FormatString<'a>)
        ensures
            r.fmt_bytes() == format@,
            r.chunk_model() == capped(compile_from(format@, 0)),
            r.wf(),
    {
        let len = format.len();
        let mut cur: usize = 0;
        let mut chunks = chunks_new();
        let ghost mut done: Seq<Chunk> = Seq::empty();

        loop
            invariant_except_break
                cur <= len,
                len == format@.len(),
                compile_from(format@, 0) == done + compile_from(format@, cur as int),
                chunk_seq(chunks) == capped(done),
                chunks_wf(format@, done),
            ensures
                done == compile_from(format@, 0),
                chunk_seq(chunks) == capped(done),
                chunks_wf(format@, done),
            decreases len - cur,
        {
            let perc = find_from(format, cur, 37);
            match perc {
                None => {
                    if cur < len {
                        let c = Chunk::Literal(cur, len);
                        proof {
                            lemma_capped_push(done, c);
                        }
                        let _ = chunks_push(&mut chunks, c);
                        proof {
                            done = done.push(c);
                        }
                    }
                    proof {
                        assert(done =~= compile_from(format@, 0));
                    }
                    break;
                }
                Some(loc) => {
                    proof {
                        lemma_first_match_bounds(format@, cur as int, 37);
                    }
                    if loc > cur {
                        let c = Chunk::Literal(cur, loc);
                        proof {
                            lemma_capped_push(done, c);
                        }
                        let _ = chunks_push(&mut chunks, c);
                        proof {
                            done = done.push(c);
                        }
                    }
                    let spec_type = find_spec_type_from(format, loc);
                    match spec_type {
                        None => {
                            proof {
                                assert(done =~= compile_from(format@, 0));
                            }
                            break;
                        }
                        Some(spec_loc) => {
                            proof {
                                lemma_first_spec_type_bounds(format@, loc as int);
                                assert(spec_loc > loc);
                            }
                            let spec_slice = slice_subrange(format, loc + 1, spec_loc + 1);
                            proof {
                                assert(spec_slice@ =~= format@.subrange(loc + 1, spec_loc + 1));
                            }
                            let spec = FormatSpec::from(spec_slice);
                            if let Some(spec) = spec {
                                let c = Chunk::Format(spec);
                                proof {
                                    lemma_capped_push(done, c);
                                }
                                let _ = chunks_push(&mut chunks, c);
                                proof {
                                    done = done.push(c);
                                }
                            }
                            cur = spec_loc + 1;
                            proof {
                                assert(compile_from(format@, 0) == done + compile_from(
                                    format@,
                                    cur as int,
                                ));
                            }
                        }
                    }
                }
            }
        }

        let r = FormatString { format, chunks };
        proof {
            assert(r.chunk_model() =~= capped(compile_from(format@, 0)));
            assert forall|i: int| 0 <= i < r.chunk_model().len() implies chunk_wf(
                format@,
                #[trigger] r.chunk_model()[i],
            ) by {
                assert(r.chunk_model()[i] == done[i]);
            }
        }
        r
    }
}


/// How many bytes of a run a bounded writer takes at a position: as many
/// as fit before the slot reserved for the terminating byte.
pub open spec fn write_count(buf_len: int, pos: int, n_bytes: int) -> int {
    vstd::math::min(n_bytes, buf_len - 1 - pos)
}

/// A bounded writer's buffer after writing a run at a position: the run's
/// prefix that fits replaces the bytes from the position on; everything
/// else is untouched.
pub open spec fn write_result(buf: Seq<u8>, pos: int, bytes: Seq<u8>) -> Seq<u8>
    recommends
        0 <= pos,
        pos + 1 <= buf.len(),
{
    let k = write_count(buf.len() as int, pos, bytes.len() as int);
    buf.subrange(0, pos) + bytes.take(k) + buf.subrange(pos + k, buf.len() as int)
}

/// A bounded view into caller-owned output memory plus a write position;
/// writes never exceed the view's length, and the final byte is reserved
/// for a terminator. Once the view is exhausted, further writes are
/// silently truncated.
pub struct FormatOutput {
    output: Vec<u8>,
    pos: usize,
}

impl FormatOutput {
    /// The whole underlying buffer.
    pub closed spec fn bytes(&self) -> Seq<u8> {
        self.output@
    }

    /// The write position: how many bytes have been written.
    pub closed spec fn spec_pos(&self) -> int {
        self.pos as int
    }

    /// The position leaves room for the reserved terminator byte.
    pub open spec fn wf(&self) -> bool {
        self.spec_pos() + 1 <= self.bytes().len()
    }

    /// Wraps a caller-owned buffer as a writer positioned at its start.
    pub fn wrap(output: Vec<u8>) -> (r: FormatOutput)
        requires
            output@.len() >= 1,
        ensures
            r.bytes() == output@,
            r.spec_pos() == 0,
            r.wf(),
    {
        FormatOutput { output, pos: 0 }
    }

    /// Writes as much of a byte run as fits before the reserved terminator
    /// slot and advances the position by the count actually written, which
    /// it returns.
    pub fn write_bytes(&mut self, bytes: &[u8]) -> (r: usize)
        requires
            old(self).wf(),
        ensures
            final(self).wf(),
            final(self).bytes() == write_result(old(self).bytes(), old(self).spec_pos(), bytes@),
            final(self).spec_pos() == old(self).spec_pos() + write_count(old(self).bytes().len() as int, old(self).spec_pos(), bytes@.len() as int),
            r == write_count(old(self).bytes().len() as int, old(self).spec_pos(), bytes@.len() as int),
    {
        let mut len_to_write = bytes.len();
        // reserve a space for the terminator
        if len_to_write > self.output.len() - (self.pos + 1) {
            len_to_write = self.output.len() - (self.pos + 1);
        }

        let mut i: usize = 0;
        while i < len_to_write
            invariant
                i <= len_to_write,
                len_to_write <= bytes@.len(),
                self.pos == old(self).spec_pos(),
                self.output@.len() == old(self).bytes().len(),
                self.output@.len() <= usize::MAX,
                self.pos + len_to_write + 1 <= self.output@.len(),
                len_to_write == write_count(old(self).bytes().len() as int, old(self).spec_pos(), bytes@.len() as int),
                forall|j: int| 0 <= j < i ==> self.output@[self.pos + j] == bytes@[j],
                forall|j: int| 0 <= j < self.output@.len() && !(self.pos <= j < self.pos + i) ==> self.output@[j] == old(self).bytes()[j],
            decreases len_to_write - i,
        {
            let b = *slice_index_get(bytes, i);
            self.output.set(self.pos + i, b);
            i += 1;
        }

        proof {
            let k = len_to_write as int;
            let p = old(self).spec_pos();
            let n = old(self).bytes().len() as int;
            assert(self.output@ =~= old(self).bytes().subrange(0, p) + bytes@.take(k)
                + old(self).bytes().subrange(p + k, n));
        }
        self.pos = self.pos + len_to_write;
        len_to_write
    }

    /// Hands the buffer back together with the write position.
    pub fn into_parts(self) -> (r: (Vec<u8>, usize))
        ensures
            r.0@ == self.bytes(),
            r.1 == self.spec_pos(),
    {
        (self.output, self.pos)
    }

    /// The written prefix of the buffer.
    pub fn as_bytes(&self) -> (r: &[u8])
        requires
            self.wf(),
        ensures
            r@ == self.bytes().take(self.spec_pos()),
    {
        let r = slice_subrange(self.output.as_slice(), 0, self.pos);
        proof {
            assert(r@ =~= self.bytes().take(self.spec_pos()));
        }
        r
    }
}


/// The ASCII byte of one digit value: `0`-`9` then lowercase `a`-`f`.
pub open spec fn digit_char(d: nat) -> u8
    recommends
        d < 16,
{
    if d < 10 {
        (48 + d) as u8
    } else {
        (87 + d) as u8
    }
}

/// The digits of an unsigned value in a base, most significant first,
/// lowercase, with no prefix or padding; zero renders as one `0` digit.
pub open spec fn digits_of(n: nat, base: nat) -> Seq<u8>
    recommends
        2 <= base <= 16,
    decreases n,
        when 2 <= base
        via digits_of_decreases
{
    if n < base {
        seq![digit_char(n)]
    } else {
        digits_of(n / base, base).push(digit_char(n % base))
    }
}

#[via_fn]
proof fn digits_of_decreases(n: nat, base: nat) {
    if 2 <= base && n >= base {
        vstd::arithmetic::div_mod::lemma_div_is_strictly_smaller(n as int, base as int);
    }
}

fn digit_byte(d: u32) -> (r: u8)
    requires
        d < 16,
    ensures
        r == digit_char(d as nat),
{
    if d < 10 {
        (48 + d) as u8
    } else {
        (87 + d) as u8
    }
}

/// Renders an unsigned value as its digits in a base.
fn render_u32(n: u32, base: u32) -> (ds: Vec<u8>)
    requires
        base == 8 || base == 10 || base == 16,
    ensures
        ds@ == digits_of(n as nat, base as nat),
    decreases n,
{
    if n < base {
        let mut v: Vec<u8> = Vec::new();
        v.push(digit_byte(n));
        proof {
            assert(v@ =~= digits_of(n as nat, base as nat));
        }
        v
    } else {
        proof {
            vstd::arithmetic::div_mod::lemma_div_is_strictly_smaller(n as int, base as int);
        }
        let mut v = render_u32(n / base, base);
        v.push(digit_byte(n % base));
        v
    }
}


/// Whether a conversion kind reads one value from the argument cursor;
/// the kinds with no implemented merge logic read none.
pub open spec fn consumes_arg(s: FormatSpec) -> bool {
    match s {
        FormatSpec::ExponentialFloatingPoint => false,
        FormatSpec::FloatingPoint => false,
        FormatSpec::UnsignedDecimal(_) => false,
        _ => true,
    }
}

/// The next value an argument cursor would yield.
pub open spec fn spec_first_arg(args: Seq<Arg>) -> Option<Arg> {
    if args.len() > 0 {
        Some(args[0])
    } else {
        None
    }
}

/// The cursor contents after one conversion: one value consumed when the
/// kind reads one and a value is left, unchanged otherwise.
pub open spec fn args_after_spec(s: FormatSpec, args: Seq<Arg>) -> Seq<Arg> {
    if consumes_arg(s) && args.len() > 0 {
        args.drop_first()
    } else {
        args
    }
}

/// The bytes one conversion renders from the value it reads: base-10
/// digits for decimal and integer conversions, base-8 or lowercase
/// base-16 digits for octal and hexadecimal ones (no prefix, no padding),
/// the character byte itself, or the string's bytes; no bytes when the
/// kind is unimplemented, no value is left, or the value's tag does not
/// match the kind.
pub open spec fn render_conversion(s: FormatSpec, a: Option<Arg>) -> Seq<u8> {
    match s {
        FormatSpec::Char => match a {
            Some(Arg::Char(c)) => seq![c],
            _ => Seq::empty(),
        },
        FormatSpec::Decimal(_) => match a {
            Some(Arg::Uint(v)) => digits_of(v as nat, 10),
            _ => Seq::empty(),
        },
        FormatSpec::Integer(_) => match a {
            Some(Arg::Uint(v)) => digits_of(v as nat, 10),
            _ => Seq::empty(),
        },
        FormatSpec::Octal(_) => match a {
            Some(Arg::Uint(v)) => digits_of(v as nat, 8),
            _ => Seq::empty(),
        },
        FormatSpec::Hexadecimal(_) => match a {
            Some(Arg::Uint(v)) => digits_of(v as nat, 16),
            _ => Seq::empty(),
        },
        FormatSpec::String => match a {
            Some(Arg::Str(bs)) => bs@,
            _ => Seq::empty(),
        },
        FormatSpec::ExponentialFloatingPoint => Seq::empty(),
        FormatSpec::FloatingPoint => Seq::empty(),
        FormatSpec::UnsignedDecimal(_) => Seq::empty(),
    }
}

proof fn lemma_write_id(buf: Seq<u8>, pos: int)
    requires
        0 <= pos,
        pos + 1 <= buf.len(),
    ensures
        write_result(buf, pos, Seq::<u8>::empty()) == buf,
{
    assert(write_result(buf, pos, Seq::<u8>::empty()) =~= buf);
}

impl FormatSpec {
    /// Converts one directive against the next cursor value and writes its
    /// rendering into the remaining buffer capacity; returns the write
    /// position afterwards.
    fn merge(&self, output: &mut FormatOutput, va_list: &mut VaList) -> (n: usize)
        requires
            old(output).wf(),
        ensures
            final(output).wf(),
            final(output).bytes() == write_result(old(output).bytes(), old(output).spec_pos(), render_conversion(*self, spec_first_arg(old(va_list)@))),
            final(output).spec_pos() == old(output).spec_pos() + write_count(old(output).bytes().len() as int, old(output).spec_pos(), render_conversion(*self, spec_first_arg(old(va_list)@)).len() as int),
            final(va_list)@ == args_after_spec(*self, old(va_list)@),
            n == final(output).spec_pos(),
    {
        match self {
            FormatSpec::Char => {
                let a = va_list.va_arg();
                match a {
                    Some(Arg::Char(c)) => {
                        let mut tmp: Vec<u8> = Vec::new();
                        tmp.push(c);
                        proof {
                            assert(tmp@ =~= render_conversion(*self, spec_first_arg(old(va_list)@)));
                        }
                        output.write_bytes(tmp.as_slice());
                    }
                    _ => {
                        proof {
                            lemma_write_id(output.bytes(), output.spec_pos());
                        }
                    }
                }
            }
            FormatSpec::Decimal(_) | FormatSpec::Integer(_) => {
                let a = va_list.va_arg();
                match a {
                    Some(Arg::Uint(v)) => {
                        let ds = render_u32(v, 10);
                        output.write_bytes(ds.as_slice());
                    }
                    _ => {
                        proof {
                            lemma_write_id(output.bytes(), output.spec_pos());
                        }
                    }
                }
            }
            FormatSpec::Octal(_) => {
                let a = va_list.va_arg();
                match a {
                    Some(Arg::Uint(v)) => {
                        let ds = render_u32(v, 8);
                        output.write_bytes(ds.as_slice());
                    }
                    _ => {
                        proof {
                            lemma_write_id(output.bytes(), output.spec_pos());
                        }
                    }
                }
            }
            FormatSpec::Hexadecimal(_) => {
                let a = va_list.va_arg();
                match a {
                    Some(Arg::Uint(v)) => {
                        let ds = render_u32(v, 16);
                        output.write_bytes(ds.as_slice());
                    }
                    _ => {
                        proof {
                            lemma_write_id(output.bytes(), output.spec_pos());
                        }
                    }
                }
            }
            FormatSpec::String => {
                let a = va_list.va_arg();
                match a {
                    Some(Arg::Str(bs)) => {
                        output.write_bytes(bs.as_slice());
                    }
                    _ => {
                        proof {
                            lemma_write_id(output.bytes(), output.spec_pos());
                        }
                    }
                }
            }
            FormatSpec::ExponentialFloatingPoint
            | FormatSpec::FloatingPoint
            | FormatSpec::UnsignedDecimal(_) => {
                // unimplemented kinds: no bytes, and no argument read
                proof {
                    lemma_write_id(output.bytes(), output.spec_pos());
                }
            }
        }
        let n = output.pos;
        n
    }
}


/// The bytes one chunk contributes to the output: its literal span of the
/// format bytes, or its conversion's rendering against the next cursor
/// value.
pub open spec fn chunk_bytes(fmt: Seq<u8>, c: Chunk, args: Seq<Arg>) -> Seq<u8> {
    match c {
        Chunk::Literal(a, b) => fmt.subrange(a as int, b as int),
        Chunk::Format(s) => render_conversion(s, spec_first_arg(args)),
    }
}

/// The cursor contents after one chunk has been merged.
pub open spec fn args_after_chunk(c: Chunk, args: Seq<Arg>) -> Seq<Arg> {
    match c {
        Chunk::Literal(_, _) => args,
        Chunk::Format(s) => args_after_spec(s, args),
    }
}

/// The full byte run a chunk sequence renders with an argument cursor,
/// unbounded by any output buffer.
pub open spec fn rendered(fmt: Seq<u8>, cs: Seq<Chunk>, args: Seq<Arg>) -> Seq<u8>
    decreases cs.len(),
{
    if cs.len() == 0 {
        Seq::empty()
    } else {
        chunk_bytes(fmt, cs[0], args) + rendered(fmt, cs.drop_first(), args_after_chunk(cs[0], args))
    }
}

/// The cursor contents after a chunk sequence has been merged.
pub open spec fn args_after(cs: Seq<Chunk>, args: Seq<Arg>) -> Seq<Arg>
    decreases cs.len(),
{
    if cs.len() == 0 {
        args
    } else {
        args_after(cs.drop_first(), args_after_chunk(cs[0], args))
    }
}

proof fn lemma_rendered_push(fmt: Seq<u8>, cs: Seq<Chunk>, c: Chunk, args: Seq<Arg>)
    ensures
        rendered(fmt, cs.push(c), args) == rendered(fmt, cs, args) + chunk_bytes(fmt, c, args_after(cs, args)),
        args_after(cs.push(c), args) == args_after_chunk(c, args_after(cs, args)),
    decreases cs.len(),
{
    if cs.len() == 0 {
        reveal_with_fuel(rendered, 2);
        reveal_with_fuel(args_after, 2);
        assert(cs.push(c)[0] == c);
        assert(cs.push(c).drop_first() =~= Seq::<Chunk>::empty());
        assert(rendered(fmt, cs.push(c), args) =~= rendered(fmt, cs, args) + chunk_bytes(fmt, c, args_after(cs, args)));
    } else {
        assert(cs.push(c)[0] == cs[0]);
        assert(cs.push(c).drop_first() =~= cs.drop_first().push(c));
        lemma_rendered_push(fmt, cs.drop_first(), c, args_after_chunk(cs[0], args));
        assert(rendered(fmt, cs.push(c), args) =~= rendered(fmt, cs, args) + chunk_bytes(fmt, c, args_after(cs, args)));
    }
}

proof fn lemma_merge_step(orig: Seq<u8>, buf0: Seq<u8>, buf1: Seq<u8>, r0: Seq<u8>, cb: Seq<u8>, pos0: int, pos1: int)
    requires
        orig.len() == buf0.len(),
        buf0.len() >= 1,
        0 <= pos0,
        pos0 == vstd::math::min(r0.len() as int, buf0.len() - 1),
        buf0.subrange(0, pos0) == r0.take(pos0),
        buf0.subrange(pos0, buf0.len() as int) == orig.subrange(pos0, orig.len() as int),
        buf1 == write_result(buf0, pos0, cb),
        pos1 == pos0 + write_count(buf0.len() as int, pos0, cb.len() as int),
    ensures
        buf1.len() == orig.len(),
        pos1 == vstd::math::min((r0 + cb).len() as int, orig.len() - 1),
        buf1.subrange(0, pos1) == (r0 + cb).take(pos1),
        buf1.subrange(pos1, buf1.len() as int) == orig.subrange(pos1, orig.len() as int),
{
    let n = buf0.len() as int;
    let k = write_count(n, pos0, cb.len() as int);
    assert(0 <= k <= cb.len());
    assert(buf1.len() == n);
    assert forall|i: int| 0 <= i < pos1 implies buf1[i] == (r0 + cb)[i] by {
        if i < pos0 {
            assert(buf1[i] == buf0[i]);
            assert(buf0.subrange(0, pos0)[i] == r0.take(pos0)[i]);
        } else {
            assert(buf1[i] == cb.take(k)[i - pos0]);
            assert(pos0 == r0.len());
        }
    }
    assert(buf1.subrange(0, pos1) =~= (r0 + cb).take(pos1));
    assert forall|i: int| pos1 <= i < n implies buf1[i] == orig[i] by {
        assert(buf1[i] == buf0.subrange(pos0 + k, n)[i - pos0 - k]);
        assert(buf0.subrange(pos0, n)[i - pos0] == orig.subrange(pos0, n)[i - pos0]);
    }
    assert(buf1.subrange(pos1, n) =~= orig.subrange(pos1, n));
}

/// The length of the content a merge writes: the full rendering, or as
/// much of it as the buffer holds beside the reserved terminator byte.
pub open spec fn content_len(full: Seq<u8>, buf_len: int) -> int {
    vstd::math::min(full.len() as int, buf_len - 1)
}

impl<'a> FormatString<'a> {
    /// Walks the compiled chunks, writing literals verbatim and converting
    /// each conversion against the next cursor value, into the buffer;
    /// writes never exceed the buffer, whose final content is terminated
    /// by a zero byte. Returns the filled buffer and the content length,
    /// the terminator not included.
    pub fn merge(&self, output: Vec<u8>, va_list: &mut VaList) -> (r: (Vec<u8>, usize))
        requires
            self.wf(),
            output@.len() >= 1,
        ensures
            ({
                let full = rendered(self.fmt_bytes(), self.chunk_model(), old(va_list)@);
                let k = content_len(full, output@.len() as int);
                &&& r.0@.len() == output@.len()
                &&& r.1 == k
                &&& r.0@ == full.take(k) + seq![0u8] + output@.subrange(k + 1, output@.len() as int)
                &&& final(va_list)@ == args_after(self.chunk_model(), old(va_list)@)
            }),
    {
        let ghost orig: Seq<u8> = output@;
        let ghost args0: Seq<Arg> = va_list@;
        let ghost fmt: Seq<u8> = self.fmt_bytes();
        let ghost model: Seq<Chunk> = self.chunk_model();
        proof {
            assert(model.take(0) =~= Seq::<Chunk>::empty());
        }

        let mut output_target = FormatOutput::wrap(output);
        let n_chunks = chunks_len(&self.chunks);
        let mut idx: usize = 0;
        while idx < n_chunks
            invariant
                idx <= n_chunks,
                n_chunks == model.len(),
                fmt == self.fmt_bytes(),
                model == self.chunk_model(),
                args0 == old(va_list)@,
                orig == output@,
                chunks_wf(fmt, model),
                orig.len() >= 1,
                output_target.wf(),
                output_target.bytes().len() == orig.len(),
                output_target.spec_pos() == vstd::math::min(rendered(fmt, model.take(idx as int), args0).len() as int, orig.len() - 1),
                output_target.bytes().subrange(0, output_target.spec_pos()) == rendered(fmt, model.take(idx as int), args0).take(output_target.spec_pos()),
                output_target.bytes().subrange(output_target.spec_pos(), orig.len() as int) == orig.subrange(output_target.spec_pos(), orig.len() as int),
                va_list@ == args_after(model.take(idx as int), args0),
            decreases n_chunks - idx,
        {
            let ghost r0 = rendered(fmt, model.take(idx as int), args0);
            let ghost argsi = va_list@;
            let ghost pos0 = output_target.spec_pos();
            let ghost buf0 = output_target.bytes();
            let format_chunk = chunks_get(&self.chunks, idx);
            proof {
                assert(chunk_wf(fmt, model[idx as int]));
                assert(model.take(idx as int).push(model[idx as int]) =~= model.take(idx + 1));
                lemma_rendered_push(fmt, model.take(idx as int), model[idx as int], args0);
            }
            match format_chunk {
                Chunk::Literal(a, b) => {
                    let bytes = slice_subrange(self.format, a, b);
                    proof {
                        assert(bytes@ =~= fmt.subrange(a as int, b as int));
                    }
                    output_target.write_bytes(bytes);
                }
                Chunk::Format(spec) => {
                    spec.merge(&mut output_target, va_list);
                }
            }
            proof {
                lemma_merge_step(orig, buf0, output_target.bytes(), r0, chunk_bytes(fmt, model[idx as int], argsi), pos0, output_target.spec_pos());
            }
            idx += 1;
        }

        proof {
            assert(model.take(idx as int) =~= model);
        }
        let (mut out_buf, cur_output_index) = output_target.into_parts();
        // terminate with the reserved byte
        out_buf.set(cur_output_index, 0);
        proof {
            let full = rendered(fmt, model, args0);
            let k = content_len(full, orig.len() as int);
            assert(out_buf@ =~= full.take(k) + seq![0u8] + orig.subrange(k + 1, orig.len() as int)) by {
                assert forall|i: int| 0 <= i < orig.len() implies out_buf@[i] == (full.take(k) + seq![0u8] + orig.subrange(k + 1, orig.len() as int))[i] by {
                    if i < k {
                        assert(out_buf@[i] == full.take(k)[i]);
                    } else if i == k {
                    } else {
                        assert(out_buf@[i] == orig.subrange(k, orig.len() as int)[i - k]);
                    }
                }
            }
        }
        (out_buf, cur_output_index)
    }
}

} // verus!
