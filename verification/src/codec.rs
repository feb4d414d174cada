//! A binary serialization of the result records, with a proved round
//! trip: decoding an encoded record yields the record unchanged, function
//! order included.
//!
//! The format is length-prefixed little-endian: numbers as eight bytes,
//! strings as a byte count followed by UTF-8 bytes, sequences as an
//! element count followed by the elements.

use vstd::bytes::{
    lemma_auto_spec_u64_to_from_le_bytes,
    spec_u64_from_le_bytes,
    spec_u64_to_le_bytes,
    u64_from_le_bytes,
    u64_to_le_bytes,
};
use vstd::prelude::*;
use vstd::slice::{slice_subrange, slice_to_vec};
use vstd::utf8::{decode_utf8, encode_utf8, encode_utf8_decode_utf8, encode_utf8_valid_utf8,
    valid_utf8};

use crate::classes::{
    CodeComplexity,
    CodeComplexityV,
    FileComplexity,
    FileComplexityV,
    FunctionComplexity,
    FunctionComplexityV,
    LineComplexity,
};

verus! {

/// Encoding of one number.
pub open spec fn enc_u64(x: u64) -> Seq<u8> {
    spec_u64_to_le_bytes(x)
}

/// Encoding of one string: byte count, then UTF-8 bytes.
pub open spec fn enc_str(s: Seq<char>) -> Seq<u8> {
    enc_u64(encode_utf8(s).len() as u64) + encode_utf8(s)
}

/// Encoding of one line attribution.
pub open spec fn enc_lc(p: (nat, nat)) -> Seq<u8> {
    enc_u64(p.0 as u64) + enc_u64(p.1 as u64)
}

/// Encoding of a list of line attributions, in order.
pub open spec fn enc_lc_list(ls: Seq<(nat, nat)>) -> Seq<u8>
    decreases ls.len(),
{
    if ls.len() == 0 {
        Seq::empty()
    } else {
        enc_lc(ls[0]) + enc_lc_list(ls.drop_first())
    }
}

/// Encoding of one function record.
pub open spec fn enc_fn(f: FunctionComplexityV) -> Seq<u8> {
    enc_str(f.name) + enc_u64(f.complexity as u64) + enc_u64(f.line_start as u64) + enc_u64(
        f.line_end as u64,
    ) + enc_u64(f.line_complexities.len() as u64) + enc_lc_list(f.line_complexities)
}

/// Encoding of a list of function records, in order.
pub open spec fn enc_fn_list(fs: Seq<FunctionComplexityV>) -> Seq<u8>
    decreases fs.len(),
{
    if fs.len() == 0 {
        Seq::empty()
    } else {
        enc_fn(fs[0]) + enc_fn_list(fs.drop_first())
    }
}

/// Encoding of a whole code record.
pub open spec fn enc_code(c: CodeComplexityV) -> Seq<u8> {
    enc_u64(c.complexity as u64) + enc_u64(c.functions.len() as u64) + enc_fn_list(c.functions)
}

/// Encoding of a whole file record.
pub open spec fn enc_file(f: FileComplexityV) -> Seq<u8> {
    enc_str(f.path) + enc_str(f.file_name) + enc_u64(f.complexity as u64) + enc_u64(
        f.functions.len() as u64,
    ) + enc_fn_list(f.functions)
}

/// A line attribution whose numbers fit the wire format.
pub open spec fn lc_bounded(p: (nat, nat)) -> bool {
    p.0 <= u64::MAX && p.1 <= u64::MAX
}

/// A function record whose numbers and lengths fit the wire format.
pub open spec fn fn_bounded(f: FunctionComplexityV) -> bool {
    &&& encode_utf8(f.name).len() <= u64::MAX
    &&& f.complexity <= u64::MAX
    &&& f.line_start <= u64::MAX
    &&& f.line_end <= u64::MAX
    &&& f.line_complexities.len() <= u64::MAX
    &&& forall|i: int|
        0 <= i < f.line_complexities.len() ==> lc_bounded(#[trigger] f.line_complexities[i])
}

/// A code record whose numbers and lengths fit the wire format.
pub open spec fn code_bounded(c: CodeComplexityV) -> bool {
    &&& c.complexity <= u64::MAX
    &&& c.functions.len() <= u64::MAX
    &&& forall|i: int| 0 <= i < c.functions.len() ==> fn_bounded(#[trigger] c.functions[i])
}

/// A file record whose numbers and lengths fit the wire format.
pub open spec fn file_bounded(f: FileComplexityV) -> bool {
    &&& encode_utf8(f.path).len() <= u64::MAX
    &&& encode_utf8(f.file_name).len() <= u64::MAX
    &&& f.complexity <= u64::MAX
    &&& f.functions.len() <= u64::MAX
    &&& forall|i: int| 0 <= i < f.functions.len() ==> fn_bounded(#[trigger] f.functions[i])
}

/// Decoding of one number at `pos`.
pub open spec fn dec_u64(b: Seq<u8>, pos: int) -> Option<(u64, int)> {
    if 0 <= pos && pos + 8 <= b.len() {
        Some((spec_u64_from_le_bytes(b.subrange(pos, pos + 8)), pos + 8))
    } else {
        None
    }
}

/// Decoding of one string at `pos`.
pub open spec fn dec_str(b: Seq<u8>, pos: int) -> Option<(Seq<char>, int)> {
    match dec_u64(b, pos) {
        Some((n, p1)) => if p1 + n <= b.len() && valid_utf8(b.subrange(p1, p1 + n)) {
            Some((decode_utf8(b.subrange(p1, p1 + n)), p1 + n))
        } else {
            None
        },
        None => None,
    }
}

/// Decoding of one line attribution at `pos`.
pub open spec fn dec_lc(b: Seq<u8>, pos: int) -> Option<((nat, nat), int)> {
    match dec_u64(b, pos) {
        Some((line, p1)) => match dec_u64(b, p1) {
            Some((complexity, p2)) => Some(((line as nat, complexity as nat), p2)),
            None => None,
        },
        None => None,
    }
}

/// Decoding of `count` line attributions at `pos`.
pub open spec fn dec_lc_list(b: Seq<u8>, pos: int, count: nat) -> Option<(Seq<(nat, nat)>, int)>
    decreases count,
{
    if count == 0 {
        Some((Seq::empty(), pos))
    } else {
        match dec_lc(b, pos) {
            Some((p, p1)) => match dec_lc_list(b, p1, (count - 1) as nat) {
                Some((rest, p2)) => Some((seq![p] + rest, p2)),
                None => None,
            },
            None => None,
        }
    }
}

/// Decoding of one function record at `pos`.
pub open spec fn dec_fn(b: Seq<u8>, pos: int) -> Option<(FunctionComplexityV, int)> {
    match dec_str(b, pos) {
        Some((name, p1)) => match dec_u64(b, p1) {
            Some((complexity, p2)) => match dec_u64(b, p2) {
                Some((line_start, p3)) => match dec_u64(b, p3) {
                    Some((line_end, p4)) => match dec_u64(b, p4) {
                        Some((count, p5)) => match dec_lc_list(b, p5, count as nat) {
                            Some((lcs, p6)) => Some(
                                (
                                    FunctionComplexityV {
                                        name,
                                        complexity: complexity as nat,
                                        line_start: line_start as nat,
                                        line_end: line_end as nat,
                                        line_complexities: lcs,
                                    },
                                    p6,
                                ),
                            ),
                            None => None,
                        },
                        None => None,
                    },
                    None => None,
                },
                None => None,
            },
            None => None,
        },
        None => None,
    }
}

/// Decoding of `count` function records at `pos`.
pub open spec fn dec_fn_list(b: Seq<u8>, pos: int, count: nat) -> Option<(
    Seq<FunctionComplexityV>,
    int,
)>
    decreases count,
{
    if count == 0 {
        Some((Seq::empty(), pos))
    } else {
        match dec_fn(b, pos) {
            Some((f, p1)) => match dec_fn_list(b, p1, (count - 1) as nat) {
                Some((rest, p2)) => Some((seq![f] + rest, p2)),
                None => None,
            },
            None => None,
        }
    }
}

/// Decoding of a whole code record; the buffer must be consumed exactly.
pub open spec fn dec_code(b: Seq<u8>) -> Option<CodeComplexityV> {
    match dec_u64(b, 0) {
        Some((complexity, p1)) => match dec_u64(b, p1) {
            Some((count, p2)) => match dec_fn_list(b, p2, count as nat) {
                Some((fns, p3)) => if p3 == b.len() {
                    Some(CodeComplexityV { functions: fns, complexity: complexity as nat })
                } else {
                    None
                },
                None => None,
            },
            None => None,
        },
        None => None,
    }
}

/// Decoding of a whole file record; the buffer must be consumed exactly.
pub open spec fn dec_file(b: Seq<u8>) -> Option<FileComplexityV> {
    match dec_str(b, 0) {
        Some((path, p1)) => match dec_str(b, p1) {
            Some((file_name, p2)) => match dec_u64(b, p2) {
                Some((complexity, p3)) => match dec_u64(b, p3) {
                    Some((count, p4)) => match dec_fn_list(b, p4, count as nat) {
                        Some((fns, p5)) => if p5 == b.len() {
                            Some(
                                FileComplexityV {
                                    path,
                                    file_name,
                                    functions: fns,
                                    complexity: complexity as nat,
                                },
                            )
                        } else {
                            None
                        },
                        None => None,
                    },
                    None => None,
                },
                None => None,
            },
            None => None,
        },
        None => None,
    }
}

/// Extracts one chunk of a known concatenation from a buffer: if the
/// bytes at `pos` are `whole` and `part` is the slice of `whole` at
/// `off`, then the bytes at `pos + off` are `part`.
proof fn lemma_chunk(b: Seq<u8>, pos: int, whole: Seq<u8>, off: int, part: Seq<u8>)
    requires
        0 <= pos,
        pos + whole.len() <= b.len(),
        b.subrange(pos, pos + whole.len() as int) == whole,
        0 <= off,
        off + part.len() <= whole.len(),
        part == whole.subrange(off, off + part.len() as int),
    ensures
        b.subrange(pos + off, pos + off + part.len() as int) == part,
{
    assert forall|k: int|
        0 <= k < part.len() implies b.subrange(pos + off, pos + off + part.len() as int)[k]
        == part[k] by {
        assert(b.subrange(pos, pos + whole.len() as int)[off + k] == whole[off + k]);
    }
    assert(b.subrange(pos + off, pos + off + part.len() as int) =~= part);
}

/// A number decodes to itself wherever its encoding sits in a buffer.
proof fn lemma_rt_u64(b: Seq<u8>, pos: int, x: u64)
    requires
        0 <= pos,
        pos + 8 <= b.len(),
        b.subrange(pos, pos + 8) == enc_u64(x),
    ensures
        dec_u64(b, pos) == Some((x, pos + 8)),
{
    lemma_auto_spec_u64_to_from_le_bytes();
}

/// A string decodes to itself wherever its encoding sits in a buffer.
proof fn lemma_rt_str(b: Seq<u8>, pos: int, s: Seq<char>)
    requires
        0 <= pos,
        encode_utf8(s).len() <= u64::MAX,
        pos + enc_str(s).len() <= b.len(),
        b.subrange(pos, pos + enc_str(s).len()) == enc_str(s),
    ensures
        dec_str(b, pos) == Some((s, pos + enc_str(s).len())),
{
    lemma_auto_spec_u64_to_from_le_bytes();
    let bytes = encode_utf8(s);
    let n = bytes.len() as u64;
    let whole = enc_str(s);
    assert(enc_u64(n) =~= whole.subrange(0, 8));
    lemma_chunk(b, pos, whole, 0, enc_u64(n));
    lemma_rt_u64(b, pos, n);
    assert(bytes =~= whole.subrange(8, 8 + bytes.len() as int));
    lemma_chunk(b, pos, whole, 8, bytes);
    assert(b.subrange(pos + 8, pos + 8 + n) == bytes);
    broadcast use encode_utf8_valid_utf8, encode_utf8_decode_utf8;

    assert(valid_utf8(bytes));
    assert(decode_utf8(bytes) == s);
}

/// A line attribution decodes to itself wherever its encoding sits.
proof fn lemma_rt_lc(b: Seq<u8>, pos: int, p: (nat, nat))
    requires
        0 <= pos,
        lc_bounded(p),
        pos + 16 <= b.len(),
        b.subrange(pos, pos + 16) == enc_lc(p),
    ensures
        dec_lc(b, pos) == Some((p, pos + 16)),
{
    lemma_auto_spec_u64_to_from_le_bytes();
    let whole = enc_lc(p);
    assert(enc_u64(p.0 as u64) =~= whole.subrange(0, 8));
    lemma_chunk(b, pos, whole, 0, enc_u64(p.0 as u64));
    assert(enc_u64(p.1 as u64) =~= whole.subrange(8, 16));
    lemma_chunk(b, pos, whole, 8, enc_u64(p.1 as u64));
    lemma_rt_u64(b, pos, p.0 as u64);
    lemma_rt_u64(b, pos + 8, p.1 as u64);
}

/// A list of line attributions decodes to itself.
proof fn lemma_rt_lc_list(b: Seq<u8>, pos: int, ls: Seq<(nat, nat)>)
    requires
        0 <= pos,
        forall|i: int| 0 <= i < ls.len() ==> lc_bounded(#[trigger] ls[i]),
        pos + enc_lc_list(ls).len() <= b.len(),
        b.subrange(pos, pos + enc_lc_list(ls).len()) == enc_lc_list(ls),
    ensures
        dec_lc_list(b, pos, ls.len()) == Some((ls, pos + enc_lc_list(ls).len())),
    decreases ls.len(),
{
    lemma_auto_spec_u64_to_from_le_bytes();
    if ls.len() == 0 {
        assert(ls =~= Seq::<(nat, nat)>::empty());
    } else {
        let head = enc_lc(ls[0]);
        let tail = enc_lc_list(ls.drop_first());
        let whole = enc_lc_list(ls);
        assert(head.len() == 16);
        assert(head =~= whole.subrange(0, 16));
        lemma_chunk(b, pos, whole, 0, head);
        lemma_rt_lc(b, pos, ls[0]);
        assert(tail =~= whole.subrange(16, 16 + tail.len() as int));
        lemma_chunk(b, pos, whole, 16, tail);
        assert(forall|i: int|
            0 <= i < ls.drop_first().len() ==> lc_bounded(#[trigger] ls.drop_first()[i]));
        lemma_rt_lc_list(b, pos + 16, ls.drop_first());
        assert(seq![ls[0]] + ls.drop_first() =~= ls);
    }
}

/// A function record decodes to itself wherever its encoding sits.
proof fn lemma_rt_fn(b: Seq<u8>, pos: int, f: FunctionComplexityV)
    requires
        0 <= pos,
        fn_bounded(f),
        pos + enc_fn(f).len() <= b.len(),
        b.subrange(pos, pos + enc_fn(f).len()) == enc_fn(f),
    ensures
        dec_fn(b, pos) == Some((f, pos + enc_fn(f).len())),
{
    lemma_auto_spec_u64_to_from_le_bytes();
    let whole = enc_fn(f);
    let sname = enc_str(f.name);
    let lcs = enc_lc_list(f.line_complexities);
    let w1 = sname.len() as int;
    assert(sname =~= whole.subrange(0, w1));
    lemma_chunk(b, pos, whole, 0, sname);
    lemma_rt_str(b, pos, f.name);
    assert(enc_u64(f.complexity as u64) =~= whole.subrange(w1, w1 + 8));
    lemma_chunk(b, pos, whole, w1, enc_u64(f.complexity as u64));
    lemma_rt_u64(b, pos + w1, f.complexity as u64);
    assert(enc_u64(f.line_start as u64) =~= whole.subrange(w1 + 8, w1 + 16));
    lemma_chunk(b, pos, whole, w1 + 8, enc_u64(f.line_start as u64));
    lemma_rt_u64(b, pos + w1 + 8, f.line_start as u64);
    assert(enc_u64(f.line_end as u64) =~= whole.subrange(w1 + 16, w1 + 24));
    lemma_chunk(b, pos, whole, w1 + 16, enc_u64(f.line_end as u64));
    lemma_rt_u64(b, pos + w1 + 16, f.line_end as u64);
    assert(enc_u64(f.line_complexities.len() as u64) =~= whole.subrange(w1 + 24, w1 + 32));
    lemma_chunk(b, pos, whole, w1 + 24, enc_u64(f.line_complexities.len() as u64));
    lemma_rt_u64(b, pos + w1 + 24, f.line_complexities.len() as u64);
    assert(lcs =~= whole.subrange(w1 + 32, w1 + 32 + lcs.len() as int));
    lemma_chunk(b, pos, whole, w1 + 32, lcs);
    lemma_rt_lc_list(b, pos + w1 + 32, f.line_complexities);
}

/// A list of function records decodes to itself.
proof fn lemma_rt_fn_list(b: Seq<u8>, pos: int, fs: Seq<FunctionComplexityV>)
    requires
        0 <= pos,
        forall|i: int| 0 <= i < fs.len() ==> fn_bounded(#[trigger] fs[i]),
        pos + enc_fn_list(fs).len() <= b.len(),
        b.subrange(pos, pos + enc_fn_list(fs).len()) == enc_fn_list(fs),
    ensures
        dec_fn_list(b, pos, fs.len()) == Some((fs, pos + enc_fn_list(fs).len())),
    decreases fs.len(),
{
    if fs.len() == 0 {
        assert(fs =~= Seq::<FunctionComplexityV>::empty());
    } else {
        let head = enc_fn(fs[0]);
        let tail = enc_fn_list(fs.drop_first());
        let whole = enc_fn_list(fs);
        assert(head =~= whole.subrange(0, head.len() as int));
        lemma_chunk(b, pos, whole, 0, head);
        lemma_rt_fn(b, pos, fs[0]);
        assert(tail =~= whole.subrange(head.len() as int, (head.len() + tail.len()) as int));
        lemma_chunk(b, pos, whole, head.len() as int, tail);
        assert(forall|i: int|
            0 <= i < fs.drop_first().len() ==> fn_bounded(#[trigger] fs.drop_first()[i]));
        lemma_rt_fn_list(b, pos + head.len(), fs.drop_first());
        assert(seq![fs[0]] + fs.drop_first() =~= fs);
    }
}

/// The round trip for code records: decoding an encoded record yields the
/// record itself, functions in their original order.
pub proof fn lemma_code_round_trip(c: CodeComplexityV)
    requires
        code_bounded(c),
    ensures
        dec_code(enc_code(c)) == Some(c),
{
    lemma_auto_spec_u64_to_from_le_bytes();
    let b = enc_code(c);
    let fns = enc_fn_list(c.functions);
    assert(b.subrange(0, b.len() as int) =~= b);
    assert(enc_u64(c.complexity as u64) =~= b.subrange(0, 8));
    lemma_chunk(b, 0, b, 0, enc_u64(c.complexity as u64));
    lemma_rt_u64(b, 0, c.complexity as u64);
    assert(enc_u64(c.functions.len() as u64) =~= b.subrange(8, 16));
    lemma_chunk(b, 0, b, 8, enc_u64(c.functions.len() as u64));
    lemma_rt_u64(b, 8, c.functions.len() as u64);
    assert(fns =~= b.subrange(16, 16 + fns.len() as int));
    lemma_chunk(b, 0, b, 16, fns);
    lemma_rt_fn_list(b, 16, c.functions);
    assert(dec_code(b) == Some(CodeComplexityV { functions: c.functions, complexity: c.complexity }));
    assert(CodeComplexityV { functions: c.functions, complexity: c.complexity } == c);
}

/// The round trip for file records.
pub proof fn lemma_file_round_trip(f: FileComplexityV)
    requires
        file_bounded(f),
    ensures
        dec_file(enc_file(f)) == Some(f),
{
    lemma_auto_spec_u64_to_from_le_bytes();
    let b = enc_file(f);
    let spath = enc_str(f.path);
    let sname = enc_str(f.file_name);
    let fns = enc_fn_list(f.functions);
    let p1 = spath.len() as int;
    let p2 = p1 + sname.len();
    assert(b.subrange(0, b.len() as int) =~= b);
    assert(spath =~= b.subrange(0, p1));
    lemma_chunk(b, 0, b, 0, spath);
    lemma_rt_str(b, 0, f.path);
    assert(sname =~= b.subrange(p1, p2));
    lemma_chunk(b, 0, b, p1, sname);
    lemma_rt_str(b, p1, f.file_name);
    assert(enc_u64(f.complexity as u64) =~= b.subrange(p2, p2 + 8));
    lemma_chunk(b, 0, b, p2, enc_u64(f.complexity as u64));
    lemma_rt_u64(b, p2, f.complexity as u64);
    assert(enc_u64(f.functions.len() as u64) =~= b.subrange(p2 + 8, p2 + 16));
    lemma_chunk(b, 0, b, p2 + 8, enc_u64(f.functions.len() as u64));
    lemma_rt_u64(b, p2 + 8, f.functions.len() as u64);
    assert(fns =~= b.subrange(p2 + 16, p2 + 16 + fns.len() as int));
    lemma_chunk(b, 0, b, p2 + 16, fns);
    lemma_rt_fn_list(b, p2 + 16, f.functions);
    assert(dec_file(b) == Some(
        FileComplexityV {
            path: f.path,
            file_name: f.file_name,
            functions: f.functions,
            complexity: f.complexity,
        },
    ));
    assert(FileComplexityV {
        path: f.path,
        file_name: f.file_name,
        functions: f.functions,
        complexity: f.complexity,
    } == f);
}

/// Relies on String::from_utf8: it succeeds exactly on valid UTF-8 and
/// decodes those bytes.
#[verifier::external_body]
fn string_from_utf8(bytes: Vec<u8>) -> (r: Option<String>)
    ensures
        r is Some <==> valid_utf8(bytes@),
        r is Some ==> r.unwrap()@ == decode_utf8(bytes@),
{
    String::from_utf8(bytes).ok()
}

/// Appends the encoding of one number.
fn push_u64(out: &mut Vec<u8>, x: u64)
    ensures
        final(out)@ == old(out)@ + enc_u64(x),
{
    let mut b = u64_to_le_bytes(x);
    out.append(&mut b);
}

/// Appends the encoding of one string.
fn push_str(out: &mut Vec<u8>, s: &String)
    ensures
        final(out)@ == old(out)@ + enc_str(s@),
{
    let mut bytes = s.as_str().as_bytes_vec();
    push_u64(out, bytes.len() as u64);
    out.append(&mut bytes);
    proof {
        assert(final(out)@ =~= old(out)@ + enc_str(s@));
    }
}

/// Appends the encoding of one function record.
fn push_function(out: &mut Vec<u8>, f: &FunctionComplexity)
    ensures
        final(out)@ == old(out)@ + enc_fn(f.deep_view()),
{
    push_str(out, &f.name);
    push_u64(out, f.complexity);
    push_u64(out, f.line_start);
    push_u64(out, f.line_end);
    push_u64(out, f.line_complexities.len() as u64);
    let ghost base = out@;
    let ghost lcs = f.line_complexities.deep_view();
    let mut i: usize = 0;
    proof {
        assert(lcs.skip(0) =~= lcs);
    }
    while i < f.line_complexities.len()
        invariant
            0 <= i <= lcs.len(),
            lcs == f.line_complexities.deep_view(),
            out@ + enc_lc_list(lcs.skip(i as int)) == base + enc_lc_list(lcs),
        decreases lcs.len() - i,
    {
        proof {
            assert(lcs.skip(i as int)[0] == lcs[i as int]);
            assert(lcs.skip(i as int).drop_first() =~= lcs.skip(i as int + 1));
        }
        let lc = &f.line_complexities[i];
        push_u64(out, lc.line);
        push_u64(out, lc.complexity);
        proof {
            assert(enc_lc(lcs[i as int]) =~= enc_u64(lc.line) + enc_u64(lc.complexity));
            assert(out@ + enc_lc_list(lcs.skip(i as int + 1)) =~= base + enc_lc_list(lcs));
        }
        i = i + 1;
    }
    proof {
        assert(enc_lc_list(lcs.skip(lcs.len() as int)) =~= Seq::<u8>::empty());
        assert(out@ =~= base + enc_lc_list(lcs));
        assert(final(out)@ =~= old(out)@ + enc_fn(f.deep_view()));
    }
}

/// Appends the encodings of a list of function records, in order.
fn push_functions(out: &mut Vec<u8>, fs: &Vec<FunctionComplexity>)
    ensures
        final(out)@ == old(out)@ + enc_fn_list(fs.deep_view()),
{
    let ghost base = out@;
    let ghost dv = fs.deep_view();
    let mut i: usize = 0;
    proof {
        assert(dv.skip(0) =~= dv);
    }
    while i < fs.len()
        invariant
            0 <= i <= dv.len(),
            dv == fs.deep_view(),
            out@ + enc_fn_list(dv.skip(i as int)) == base + enc_fn_list(dv),
        decreases dv.len() - i,
    {
        proof {
            assert(dv.skip(i as int)[0] == dv[i as int]);
            assert(dv.skip(i as int).drop_first() =~= dv.skip(i as int + 1));
        }
        push_function(out, &fs[i]);
        proof {
            assert(out@ + enc_fn_list(dv.skip(i as int + 1)) =~= base + enc_fn_list(dv));
        }
        i = i + 1;
    }
    proof {
        assert(enc_fn_list(dv.skip(dv.len() as int)) =~= Seq::<u8>::empty());
        assert(final(out)@ =~= old(out)@ + enc_fn_list(dv));
    }
}

/// Serializes a code record.
pub fn encode_code_complexity(c: &CodeComplexity) -> (r: Vec<u8>)
    ensures
        r@ == enc_code(c@),
{
    let mut out: Vec<u8> = Vec::new();
    push_u64(&mut out, c.complexity);
    push_u64(&mut out, c.functions.len() as u64);
    push_functions(&mut out, &c.functions);
    proof {
        assert(out@ =~= enc_code(c@));
    }
    out
}

/// Serializes a file record.
pub fn encode_file_complexity(f: &FileComplexity) -> (r: Vec<u8>)
    ensures
        r@ == enc_file(f@),
{
    let mut out: Vec<u8> = Vec::new();
    push_str(&mut out, &f.path);
    push_str(&mut out, &f.file_name);
    push_u64(&mut out, f.complexity);
    push_u64(&mut out, f.functions.len() as u64);
    push_functions(&mut out, &f.functions);
    proof {
        assert(out@ =~= enc_file(f@));
    }
    out
}

/// Reads one number.
fn read_u64(b: &[u8], pos: usize) -> (r: Option<(u64, usize)>)
    ensures
        r is Some <==> dec_u64(b@, pos as int) is Some,
        r is Some ==> {
            let v = r.unwrap();
            dec_u64(b@, pos as int) == Some((v.0, v.1 as int)) && v.1 <= b@.len() && pos <= v.1
        },
{
    if pos <= b.len() && b.len() - pos >= 8 {
        let chunk = slice_subrange(b, pos, pos + 8);
        let x = u64_from_le_bytes(chunk);
        Some((x, pos + 8))
    } else {
        None
    }
}

/// Reads one string.
fn read_string(b: &[u8], pos: usize) -> (r: Option<(String, usize)>)
    ensures
        r is Some <==> dec_str(b@, pos as int) is Some,
        r is Some ==> {
            let v = r.unwrap();
            dec_str(b@, pos as int) == Some((v.0@, v.1 as int)) && v.1 <= b@.len() && pos <= v.1
        },
{
    match read_u64(b, pos) {
        Some((n, p1)) => {
            if n <= (b.len() - p1) as u64 {
                let len = n as usize;
                let chunk = slice_subrange(b, p1, p1 + len);
                let v = slice_to_vec(chunk);
                match string_from_utf8(v) {
                    Some(s) => Some((s, p1 + len)),
                    None => None,
                }
            } else {
                None
            }
        },
        None => None,
    }
}

/// Reads `count` line attributions.
fn read_line_complexities(b: &[u8], pos: usize, count: u64) -> (r: Option<(
    Vec<LineComplexity>,
    usize,
)>)
    ensures
        r is Some <==> dec_lc_list(b@, pos as int, count as nat) is Some,
        r is Some ==> {
            let v = r.unwrap();
            dec_lc_list(b@, pos as int, count as nat) == Some((v.0.deep_view(), v.1 as int))
                && (v.1 <= b@.len() || v.1 == pos) && pos <= v.1
        },
{
    let ghost start = pos as int;
    let mut cur: usize = pos;
    let mut out: Vec<LineComplexity> = Vec::new();
    let mut k: u64 = 0;
    while k < count
        invariant
            start == pos as int,
            0 <= k <= count,
            pos <= cur,
            cur as int <= b@.len() || cur == pos,
            match dec_lc_list(b@, cur as int, (count - k) as nat) {
                Some((rest, pend)) => dec_lc_list(b@, start, count as nat) == Some(
                    (out.deep_view() + rest, pend),
                ),
                None => dec_lc_list(b@, start, count as nat) is None,
            },
        decreases count - k,
    {
        let line = match read_u64(b, cur) {
            Some(v) => v,
            None => {
                proof {
                    assert(dec_lc(b@, cur as int) is None);
                    assert(dec_lc_list(b@, cur as int, (count - k) as nat) is None);
                }
                return None;
            },
        };
        let complexity = match read_u64(b, line.1) {
            Some(v) => v,
            None => {
                proof {
                    assert(dec_lc(b@, cur as int) is None);
                    assert(dec_lc_list(b@, cur as int, (count - k) as nat) is None);
                }
                return None;
            },
        };
        let ghost old_out = out.deep_view();
        out.push(LineComplexity { line: line.0, complexity: complexity.0 });
        proof {
            let p: (nat, nat) = (line.0 as nat, complexity.0 as nat);
            assert(dec_lc(b@, cur as int) == Some((p, complexity.1 as int)));
            assert(out.deep_view() =~= old_out.push(p));
            assert(old_out.push(p) =~= old_out + seq![p]);
            let rest1 = dec_lc_list(b@, complexity.1 as int, (count - k - 1) as nat);
            match rest1 {
                Some((rest, pend)) => {
                    assert((old_out + seq![p]) + rest =~= old_out + (seq![p] + rest));
                },
                None => {},
            }
        }
        cur = complexity.1;
        k = k + 1;
    }
    proof {
        assert(dec_lc_list(b@, cur as int, 0) == Some((Seq::<(nat, nat)>::empty(), cur as int)));
        assert(out.deep_view() + Seq::<(nat, nat)>::empty() =~= out.deep_view());
    }
    Some((out, cur))
}

/// Reads one function record.
fn read_function(b: &[u8], pos: usize) -> (r: Option<(FunctionComplexity, usize)>)
    ensures
        r is Some <==> dec_fn(b@, pos as int) is Some,
        r is Some ==> {
            let v = r.unwrap();
            dec_fn(b@, pos as int) == Some((v.0.deep_view(), v.1 as int)) && v.1 <= b@.len() && pos
                <= v.1
        },
{
    let name = match read_string(b, pos) {
        Some(v) => v,
        None => {
            return None;
        },
    };
    let complexity = match read_u64(b, name.1) {
        Some(v) => v,
        None => {
            return None;
        },
    };
    let line_start = match read_u64(b, complexity.1) {
        Some(v) => v,
        None => {
            return None;
        },
    };
    let line_end = match read_u64(b, line_start.1) {
        Some(v) => v,
        None => {
            return None;
        },
    };
    let count = match read_u64(b, line_end.1) {
        Some(v) => v,
        None => {
            return None;
        },
    };
    let lcs = match read_line_complexities(b, count.1, count.0) {
        Some(v) => v,
        None => {
            return None;
        },
    };
    let f = FunctionComplexity {
        name: name.0,
        complexity: complexity.0,
        line_start: line_start.0,
        line_end: line_end.0,
        line_complexities: lcs.0,
    };
    Some((f, lcs.1))
}

/// Reads `count` function records.
fn read_functions(b: &[u8], pos: usize, count: u64) -> (r: Option<(Vec<FunctionComplexity>, usize)>)
    ensures
        r is Some <==> dec_fn_list(b@, pos as int, count as nat) is Some,
        r is Some ==> {
            let v = r.unwrap();
            dec_fn_list(b@, pos as int, count as nat) == Some((v.0.deep_view(), v.1 as int))
                && (v.1 <= b@.len() || v.1 == pos) && pos <= v.1
        },
{
    let ghost start = pos as int;
    let mut cur: usize = pos;
    let mut out: Vec<FunctionComplexity> = Vec::new();
    let mut k: u64 = 0;
    while k < count
        invariant
            start == pos as int,
            0 <= k <= count,
            pos <= cur,
            cur as int <= b@.len() || cur == pos,
            match dec_fn_list(b@, cur as int, (count - k) as nat) {
                Some((rest, pend)) => dec_fn_list(b@, start, count as nat) == Some(
                    (out.deep_view() + rest, pend),
                ),
                None => dec_fn_list(b@, start, count as nat) is None,
            },
        decreases count - k,
    {
        let f = match read_function(b, cur) {
            Some(v) => v,
            None => {
                proof {
                    assert(dec_fn_list(b@, cur as int, (count - k) as nat) is None);
                }
                return None;
            },
        };
        let ghost old_out = out.deep_view();
        let ghost fv = f.0.deep_view();
        out.push(f.0);
        proof {
            assert(out.deep_view() =~= old_out.push(fv));
            assert(old_out.push(fv) =~= old_out + seq![fv]);
            let rest1 = dec_fn_list(b@, f.1 as int, (count - k - 1) as nat);
            match rest1 {
                Some((rest, pend)) => {
                    assert((old_out + seq![fv]) + rest =~= old_out + (seq![fv] + rest));
                },
                None => {},
            }
        }
        cur = f.1;
        k = k + 1;
    }
    proof {
        assert(dec_fn_list(b@, cur as int, 0) == Some(
            (Seq::<FunctionComplexityV>::empty(), cur as int),
        ));
        assert(out.deep_view() + Seq::<FunctionComplexityV>::empty() =~= out.deep_view());
    }
    Some((out, cur))
}

/// Deserializes a code record; `None` on any malformed or unconsumed
/// input.
pub fn decode_code_complexity(bytes: &[u8]) -> (r: Option<CodeComplexity>)
    ensures
        r is Some <==> dec_code(bytes@) is Some,
        r is Some ==> r.unwrap()@ == dec_code(bytes@).unwrap(),
{
    let complexity = match read_u64(bytes, 0) {
        Some(v) => v,
        None => {
            return None;
        },
    };
    let count = match read_u64(bytes, complexity.1) {
        Some(v) => v,
        None => {
            return None;
        },
    };
    let fns = match read_functions(bytes, count.1, count.0) {
        Some(v) => v,
        None => {
            return None;
        },
    };
    if fns.1 != bytes.len() {
        return None;
    }
    Some(CodeComplexity { functions: fns.0, complexity: complexity.0 })
}

/// Deserializes a file record; `None` on any malformed or unconsumed
/// input.
pub fn decode_file_complexity(bytes: &[u8]) -> (r: Option<FileComplexity>)
    ensures
        r is Some <==> dec_file(bytes@) is Some,
        r is Some ==> r.unwrap()@ == dec_file(bytes@).unwrap(),
{
    let path = match read_string(bytes, 0) {
        Some(v) => v,
        None => {
            return None;
        },
    };
    let file_name = match read_string(bytes, path.1) {
        Some(v) => v,
        None => {
            return None;
        },
    };
    let complexity = match read_u64(bytes, file_name.1) {
        Some(v) => v,
        None => {
            return None;
        },
    };
    let count = match read_u64(bytes, complexity.1) {
        Some(v) => v,
        None => {
            return None;
        },
    };
    let fns = match read_functions(bytes, count.1, count.0) {
        Some(v) => v,
        None => {
            return None;
        },
    };
    if fns.1 != bytes.len() {
        return None;
    }
    Some(
        FileComplexity {
            path: path.0,
            file_name: file_name.0,
            functions: fns.0,
            complexity: complexity.0,
        },
    )
}

} // verus!
