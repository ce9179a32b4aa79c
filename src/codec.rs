//! The binary payload that carries a command line to a running instance.
//!
//! Layout, all integers little-endian `u32`:
//! the argument count `N`; `N` offsets, one per argument, measured from the
//! start of the buffer; a fixed working-directory path with its NUL; then each
//! argument's bytes followed by one NUL.

use vstd::bytes::{spec_u32_from_le_bytes, spec_u32_to_le_bytes, u32_to_le_bytes};
use vstd::prelude::*;
use vstd::slice::slice_to_vec;
use vstd::utf8::{decode_utf8, encode_utf8};

verus! {

broadcast use vstd::seq_lib::group_seq_properties;

/// Length of the fixed working-directory path, NUL included.
pub const FIXED_PATH_LEN: usize = 6;

/// The fixed working-directory path sent with every command: `/tmp/` and NUL.
pub open spec fn fixed_path() -> Seq<u8> {
    seq![47u8, 116u8, 109u8, 112u8, 47u8, 0u8]
}

/// The UTF-8 bytes of each argument.
pub open spec fn arg_bytes(args: Seq<String>) -> Seq<Seq<u8>> {
    args.map_values(|s: String| encode_utf8(s@))
}

/// The argument section: each argument followed by one NUL.
pub open spec fn arg_section(a: Seq<Seq<u8>>) -> Seq<u8>
    decreases a.len(),
{
    if a.len() == 0 {
        Seq::empty()
    } else {
        arg_section(a.drop_last()) + a.last() + seq![0u8]
    }
}

/// Where the fixed path starts: after the count and the offset table.
pub open spec fn path_start(n: nat) -> nat {
    4 + 4 * n
}

/// Offset of argument `i` from the start of the buffer.
pub open spec fn arg_offset(a: Seq<Seq<u8>>, i: int) -> nat {
    path_start(a.len()) + 6 + arg_section(a.take(i)).len()
}

/// The offset table for the first `k` arguments.
pub open spec fn offset_table(a: Seq<Seq<u8>>, k: nat) -> Seq<u8>
    decreases k,
{
    if k == 0 {
        Seq::empty()
    } else {
        offset_table(a, (k - 1) as nat) + spec_u32_to_le_bytes(arg_offset(a, k - 1) as u32)
    }
}

/// Total size of the payload for these arguments.
pub open spec fn encoded_len(a: Seq<Seq<u8>>) -> nat {
    path_start(a.len()) + 6 + arg_section(a).len()
}

/// The payload for the given argument bytes.
pub open spec fn encoding(a: Seq<Seq<u8>>) -> Seq<u8> {
    spec_u32_to_le_bytes(a.len() as u32) + offset_table(a, a.len()) + fixed_path() + arg_section(a)
}

/// Sum over the arguments of their length plus one.
pub open spec fn terminated_len(a: Seq<Seq<u8>>) -> nat
    decreases a.len(),
{
    if a.len() == 0 {
        0
    } else {
        terminated_len(a.drop_last()) + a.last().len() + 1
    }
}

proof fn lemma_section_len(a: Seq<Seq<u8>>)
    ensures
        arg_section(a).len() == terminated_len(a),
    decreases a.len(),
{
    if a.len() > 0 {
        lemma_section_len(a.drop_last());
    }
}

proof fn lemma_table_len(a: Seq<Seq<u8>>, k: nat)
    ensures
        offset_table(a, k).len() == 4 * k,
    decreases k,
{
    vstd::bytes::lemma_auto_spec_u32_to_from_le_bytes();
    if k > 0 {
        lemma_table_len(a, (k - 1) as nat);
    }
}

/// The table entry of argument `i` sits at `4 + 4 * i` in the table prefix.
proof fn lemma_table_entry(a: Seq<Seq<u8>>, k: nat, i: int)
    requires
        0 <= i < k,
    ensures
        offset_table(a, k).subrange(4 * i, 4 * i + 4) == spec_u32_to_le_bytes(arg_offset(a, i) as u32),
    decreases k,
{
    vstd::bytes::lemma_auto_spec_u32_to_from_le_bytes();
    lemma_table_len(a, (k - 1) as nat);
    if i < k - 1 {
        lemma_table_entry(a, (k - 1) as nat, i);
        let prev = offset_table(a, (k - 1) as nat);
        assert(offset_table(a, k).subrange(4 * i, 4 * i + 4) == prev.subrange(4 * i, 4 * i + 4));
    } else {
        assert(offset_table(a, k).subrange(4 * i, 4 * i + 4) == spec_u32_to_le_bytes(
            arg_offset(a, i) as u32,
        ));
    }
}

/// Argument `i` sits in the section at `arg_section(a.take(i)).len()`, and is
/// followed by a NUL.
proof fn lemma_section_entry(a: Seq<Seq<u8>>, i: int)
    requires
        0 <= i < a.len(),
    ensures
        arg_section(a).subrange(
            arg_section(a.take(i)).len() as int,
            arg_section(a.take(i)).len() + a[i].len() as int,
        ) == a[i],
        arg_section(a)[arg_section(a.take(i)).len() + a[i].len() as int] == 0u8,
        arg_section(a.take(i + 1)).len() == arg_section(a.take(i)).len() + a[i].len() + 1,
        arg_section(a.take(i + 1)).len() <= arg_section(a).len(),
    decreases a.len(),
{
    let s = arg_section(a);
    let start = arg_section(a.take(i)).len() as int;
    assert(a.take(i + 1).drop_last() == a.take(i));
    if i == a.len() - 1 {
        assert(a.take(i + 1) == a);
        assert(a.drop_last() == a.take(i));
        assert(s.subrange(start, start + a[i].len()) == a[i]);
    } else {
        let d = a.drop_last();
        lemma_section_entry(d, i);
        assert(d.take(i) == a.take(i));
        assert(d.take(i + 1) == a.take(i + 1));
        let sd = arg_section(d);
        assert(s.subrange(start, start + a[i].len()) == sd.subrange(start, start + a[i].len()));
    }
}

/// The payload length and the position of each argument: the offset of each
/// argument is the previous one plus the previous argument's length and its NUL.
pub proof fn lemma_encoded_len(a: Seq<Seq<u8>>)
    ensures
        encoding(a).len() == encoded_len(a),
        encoded_len(a) == 4 + 4 * a.len() + 6 + terminated_len(a),
        forall|i: int|
            0 <= i < a.len() - 1 ==> #[trigger] arg_offset(a, i + 1) == arg_offset(a, i) + a[i].len()
                + 1,
{
    vstd::bytes::lemma_auto_spec_u32_to_from_le_bytes();
    lemma_table_len(a, a.len());
    lemma_section_len(a);
    assert forall|i: int| 0 <= i < a.len() - 1 implies #[trigger] arg_offset(a, i + 1) == arg_offset(
        a,
        i,
    ) + a[i].len() + 1 by {
        lemma_section_entry(a, i);
    }
}

/// Reading the payload back: the count field holds the number of arguments,
/// the offset table locates each argument, the fixed path follows the table, and
/// each argument's bytes stand at its offset followed by a NUL, so the list is
/// recovered exactly, in order.
pub proof fn lemma_round_trip(args: Seq<String>)
    requires
        encoded_len(arg_bytes(args)) <= u32::MAX,
    ensures
        ({
            let a = arg_bytes(args);
            let e = encoding(a);
            &&& e.len() == encoded_len(a)
            &&& spec_u32_from_le_bytes(e.subrange(0, 4)) == args.len()
            &&& e.subrange(path_start(a.len()) as int, path_start(a.len()) + 6int) == fixed_path()
            &&& forall|i: int|
                0 <= i < args.len() ==> {
                    let off = spec_u32_from_le_bytes(#[trigger] e.subrange(4 + 4 * i, 8 + 4 * i));
                    &&& off == arg_offset(a, i)
                    &&& off + a[i].len() < e.len()
                    &&& e.subrange(off as int, off + a[i].len()) == a[i]
                    &&& e[off + a[i].len()] == 0u8
                    &&& decode_utf8(e.subrange(off as int, off + a[i].len())) == args[i]@
                }
        }),
{
    vstd::bytes::lemma_auto_spec_u32_to_from_le_bytes();
    let a = arg_bytes(args);
    let n = a.len();
    let e = encoding(a);
    let head = spec_u32_to_le_bytes(n as u32);
    let table = offset_table(a, n);
    let sect = arg_section(a);
    lemma_table_len(a, n);
    lemma_encoded_len(a);
    lemma_section_len(a);
    assert(e.subrange(0, 4) == head);
    assert(e.subrange(path_start(n) as int, path_start(n) + 6int) == fixed_path());
    assert forall|i: int| 0 <= i < args.len() implies {
        let off = spec_u32_from_le_bytes(#[trigger] e.subrange(4 + 4 * i, 8 + 4 * i));
        &&& off == arg_offset(a, i)
        &&& off + a[i].len() < e.len()
        &&& e.subrange(off as int, off + a[i].len()) == a[i]
        &&& e[off + a[i].len()] == 0u8
        &&& decode_utf8(e.subrange(off as int, off + a[i].len())) == args[i]@
    } by {
        lemma_table_entry(a, n, i);
        assert(e.subrange(4 + 4 * i, 8 + 4 * i) == table.subrange(4 * i, 4 * i + 4));
        lemma_section_entry(a, i);
        let base = path_start(n) + 6int;
        let st = arg_section(a.take(i)).len() as int;
        let li = a[i].len() as int;
        assert(arg_offset(a, i) == base + st);
        assert(arg_offset(a, i) <= u32::MAX);
        assert(e.subrange(base + st, base + st + li) == sect.subrange(st, st + li));
        assert(e[base + st + li] == sect[st + li]);
        vstd::utf8::encode_utf8_decode_utf8(args[i]@);
    }
}

proof fn lemma_terminated_prefix(a: Seq<Seq<u8>>, i: int)
    requires
        0 <= i <= a.len(),
    ensures
        terminated_len(a.take(i)) <= terminated_len(a),
    decreases a.len(),
{
    if i < a.len() {
        assert(a.drop_last().take(i) == a.take(i));
        lemma_terminated_prefix(a.drop_last(), i);
    } else {
        assert(a.take(i) == a);
    }
}

/// Encodes `args` in the payload layout: the count field holds the number of
/// arguments and the fixed path follows the offset table.
pub fn encode_args(args: &Vec<String>) -> (r: Vec<u8>)
    requires
        encoded_len(arg_bytes(args@)) <= u32::MAX,
    ensures
        r@ == encoding(arg_bytes(args@)),
        r@.len() == 4 + 4 * args@.len() + FIXED_PATH_LEN + terminated_len(arg_bytes(args@)),
        spec_u32_from_le_bytes(r@.subrange(0, 4)) == args@.len(),
        r@.subrange(4 + 4 * args@.len() as int, 10 + 4 * args@.len() as int) == fixed_path(),
{
    let ghost a = arg_bytes(args@);
    let n = args.len();
    proof {
        lemma_encoded_len(a);
        lemma_section_len(a);
        lemma_round_trip(args@);
    }
    let mut buffer: Vec<u8> = Vec::with_capacity(512);
    let mut count = u32_to_le_bytes(n as u32);
    buffer.append(&mut count);

    let mut offset: usize = 4 * n + 4 + FIXED_PATH_LEN;
    let mut i: usize = 0;
    while i < n
        invariant
            n == args@.len(),
            a == arg_bytes(args@),
            encoded_len(a) <= u32::MAX,
            0 <= i <= n,
            offset == arg_offset(a, i as int),
            buffer@ == spec_u32_to_le_bytes(n as u32) + offset_table(a, i as nat),
        decreases n - i,
    {
        let item = args[i].as_str().as_bytes();
        let mut entry = u32_to_le_bytes(offset as u32);
        buffer.append(&mut entry);
        proof {
            lemma_section_entry(a, i as int);
        }
        offset = offset + item.len() + 1;
        i = i + 1;
    }

    let path: [u8; 6] = [47u8, 116u8, 109u8, 112u8, 47u8, 0u8];
    let mut path_bytes = slice_to_vec(path.as_slice());
    assert(path_bytes@ == fixed_path());
    buffer.append(&mut path_bytes);

    let mut j: usize = 0;
    while j < n
        invariant
            n == args@.len(),
            a == arg_bytes(args@),
            0 <= j <= n,
            buffer@ == spec_u32_to_le_bytes(n as u32) + offset_table(a, n as nat) + fixed_path()
                + arg_section(a.take(j as int)),
        decreases n - j,
    {
        let mut bytes = slice_to_vec(args[j].as_str().as_bytes());
        buffer.append(&mut bytes);
        buffer.push(0u8);
        proof {
            assert(a.take(j + 1).drop_last() == a.take(j as int));
        }
        j = j + 1;
    }
    assert(a.take(n as int) == a);
    buffer
}


/// Encodes `args`, or gives `None` exactly when the payload would not fit the
/// 32-bit offsets of the layout.
pub fn try_encode_args(args: &Vec<String>) -> (r: Option<Vec<u8>>)
    ensures
        r is None <==> encoded_len(arg_bytes(args@)) > u32::MAX,
        r matches Some(v) ==> v@ == encoding(arg_bytes(args@)),
{
    let ghost a = arg_bytes(args@);
    let n = args.len();
    proof {
        lemma_encoded_len(a);
    }
    if n > 1073741821 {
        return None;
    }
    let mut total: u64 = 4 * (n as u64) + 10;
    let mut i: usize = 0;
    while i < n
        invariant
            n == args@.len(),
            a == arg_bytes(args@),
            n <= 1073741821,
            0 <= i <= n,
            total == 4 * n + 10 + terminated_len(a.take(i as int)),
            total <= u32::MAX,
            encoded_len(a) == 4 * n + 10 + terminated_len(a),
        decreases n - i,
    {
        let len = args[i].as_str().as_bytes().len();
        proof {
            assert(a.take(i + 1).drop_last() == a.take(i as int));
            lemma_terminated_prefix(a, i + 1);
        }
        if len as u64 >= 4294967295u64 - total {
            return None;
        }
        total = total + (len as u64) + 1;
        i = i + 1;
    }
    assert(a.take(n as int) == a);
    Some(encode_args(args))
}

} // verus!
