//! Writing the primitive values of the network protocol into a byte buffer.
//!
//! Every writer appends to a `Vec<u8>` and states exactly which bytes it appends,
//! in terms of the spec functions below.
use vstd::prelude::*;
use vstd::utf8::encode_utf8;

verus! {

/// The largest number of bytes that a protocol string may take (`i16::MAX`).
pub const MAX_STRING_BYTES: usize = 32767;

/// The one-byte encoding of a boolean: `1` for true, `0` for false.
pub open spec fn bool_bytes(b: bool) -> Seq<u8> {
    if b {
        seq![1u8]
    } else {
        seq![0u8]
    }
}

/// The variable-length encoding of an unsigned 32-bit value: seven bits per byte,
/// least significant group first, the high bit set on every byte but the last.
pub open spec fn var_uint_bytes(v: u32) -> Seq<u8>
    decreases v,
{
    if v < 128 {
        seq![v as u8]
    } else {
        seq![(v % 128 + 128) as u8] + var_uint_bytes(v / 128)
    }
}

/// The protocol's VarInt: the variable-length encoding of the value's 32 bits.
pub open spec fn var_int_bytes(v: i32) -> Seq<u8> {
    var_uint_bytes(v as u32)
}

/// The UTF-8 bytes of a string.
pub open spec fn utf8(s: Seq<char>) -> Seq<u8> {
    encode_utf8(s)
}

/// Whether a string is short enough to be written as a protocol string.
pub open spec fn fits_protocol_string(s: Seq<char>) -> bool {
    utf8(s).len() <= MAX_STRING_BYTES
}

/// A protocol string: its byte length as a VarInt, then its UTF-8 bytes.
pub open spec fn string_bytes(s: Seq<char>) -> Seq<u8> {
    var_int_bytes(utf8(s).len() as i32) + utf8(s)
}

/// A big-endian 16-bit value.
pub open spec fn u16_be_bytes(v: u16) -> Seq<u8> {
    seq![(v / 256) as u8, (v % 256) as u8]
}

/// A string as NBT writes it: its byte length as a big-endian `u16` (the length
/// cut to 16 bits), then its UTF-8 bytes.
pub open spec fn nbt_string_bytes(s: Seq<char>) -> Seq<u8> {
    u16_be_bytes(utf8(s).len() as u16) + utf8(s)
}

/// The bytes of each item of `s`, one after the other.
pub open spec fn flat<T>(s: Seq<T>, f: spec_fn(T) -> Seq<u8>) -> Seq<u8>
    decreases s.len(),
{
    if s.len() == 0 {
        seq![]
    } else {
        flat(s.drop_last(), f) + f(s.last())
    }
}

/// Taking one more item of a sequence appends that item's bytes.
pub proof fn lemma_flat_take_step<T>(s: Seq<T>, f: spec_fn(T) -> Seq<u8>, i: int)
    requires
        0 <= i < s.len(),
    ensures
        flat(s.take(i + 1), f) == flat(s.take(i), f) + f(s[i]),
{
    assert(s.take(i + 1).drop_last() =~= s.take(i));
}

/// The protocol-string encoding of each `String`, as a function on `String`s.
pub open spec fn string_item() -> spec_fn(String) -> Seq<u8> {
    |s: String| string_bytes(s@)
}

/// A list of strings: its length as a VarInt, then each string.
pub open spec fn string_list_bytes(ss: Seq<String>) -> Seq<u8> {
    var_int_bytes(ss.len() as i32) + flat(ss, string_item())
}

/// Whether every string of the list fits in a protocol string.
pub open spec fn all_fit(ss: Seq<String>) -> bool {
    forall|i: int| 0 <= i < ss.len() ==> fits_protocol_string(#[trigger] ss[i]@)
}

/// Appends the encoding of `b` to `buf`.
pub fn write_bool(buf: &mut Vec<u8>, b: bool)
    ensures
        final(buf)@ == old(buf)@ + bool_bytes(b),
{
    if b {
        buf.push(1u8);
    } else {
        buf.push(0u8);
    }
}

/// Appends one byte to `buf`.
pub fn write_u8(buf: &mut Vec<u8>, v: u8)
    ensures
        final(buf)@ == old(buf)@ + seq![v],
{
    buf.push(v);
}

/// Appends the VarInt encoding of `v` to `buf`.
pub fn write_var_int(buf: &mut Vec<u8>, v: i32)
    ensures
        final(buf)@ == old(buf)@ + var_int_bytes(v),
        1 <= var_int_bytes(v).len() <= 5,
{
    proof {
        lemma_var_uint_len(v as u32);
    }
    let mut val: u32 = v as u32;
    while val >= 128
        invariant
            buf@ + var_uint_bytes(val) == old(buf)@ + var_int_bytes(v),
        decreases val,
    {
        let ghost before = buf@;
        let b: u8 = (val % 128 + 128) as u8;
        buf.push(b);
        assert(before + var_uint_bytes(val) == buf@ + var_uint_bytes(val / 128));
        val = val / 128;
    }
    buf.push(val as u8);
}

/// A VarInt takes one to five bytes.
pub proof fn lemma_var_uint_len(v: u32)
    ensures
        1 <= var_uint_bytes(v).len() <= 5,
        v < 128 ==> var_uint_bytes(v).len() == 1,
{
    reveal_with_fuel(pow128, 6);
    assert(pow128(5) == 34359738368);
    lemma_var_uint_len_bound(v as int, 5);
}

proof fn lemma_var_uint_len_bound(v: int, k: nat)
    requires
        0 <= v <= u32::MAX,
        k >= 1,
        v < pow128(k),
    ensures
        1 <= var_uint_bytes(v as u32).len() <= k,
    decreases k,
{
    reveal_with_fuel(pow128, 2);
    if v >= 128 {
        assert(k >= 2);
        lemma_var_uint_len_bound(v / 128, (k - 1) as nat);
    }
}

spec fn pow128(k: nat) -> int
    decreases k,
{
    if k == 0 {
        1
    } else {
        128 * pow128((k - 1) as nat)
    }
}

/// Appends the bytes of `data` to `buf`.
pub fn write_slice(buf: &mut Vec<u8>, data: &[u8])
    ensures
        final(buf)@ == old(buf)@ + data@,
{
    let mut i: usize = 0;
    while i < data.len()
        invariant
            i <= data@.len(),
            buf@ == old(buf)@ + data@.take(i as int),
        decreases data@.len() - i,
    {
        buf.push(data[i]);
        assert(data@.take(i as int).push(data@[i as int]) == data@.take(i as int + 1));
        i = i + 1;
    }
    assert(data@.take(data@.len() as int) == data@);
}

/// Appends `s` as a protocol string.
pub fn write_string(buf: &mut Vec<u8>, s: &str)
    requires
        fits_protocol_string(s@),
    ensures
        final(buf)@ == old(buf)@ + string_bytes(s@),
{
    let bytes = s.as_bytes();
    write_var_int(buf, bytes.len() as i32);
    write_slice(buf, bytes);
}

/// Whether `s` is short enough to be written as a protocol string.
pub fn fits_string(s: &str) -> (r: bool)
    ensures
        r == fits_protocol_string(s@),
{
    s.as_bytes().len() <= MAX_STRING_BYTES
}

/// Whether every string of `ss` is short enough to be written as a protocol string.
pub fn all_strings_fit(ss: &[String]) -> (r: bool)
    ensures
        r == all_fit(ss@),
{
    let mut i: usize = 0;
    while i < ss.len()
        invariant
            i <= ss@.len(),
            forall|j: int| 0 <= j < i ==> fits_protocol_string(#[trigger] ss@[j]@),
        decreases ss@.len() - i,
    {
        if !fits_string(ss[i].as_str()) {
            return false;
        }
        i = i + 1;
    }
    true
}

/// Appends a list of strings: its length as a VarInt, then each string.
pub fn write_string_list(buf: &mut Vec<u8>, ss: &[String])
    requires
        all_fit(ss@),
    ensures
        final(buf)@ == old(buf)@ + string_list_bytes(ss@),
{
    write_var_int(buf, ss.len() as i32);
    let ghost start = buf@;
    let mut i: usize = 0;
    while i < ss.len()
        invariant
            i <= ss@.len(),
            all_fit(ss@),
            buf@ == start + flat(ss@.take(i as int), string_item()),
        decreases ss@.len() - i,
    {
        write_string(buf, ss[i].as_str());
        proof {
            lemma_flat_take_step(ss@, string_item(), i as int);
        }
        i = i + 1;
    }
    assert(ss@.take(ss@.len() as int) =~= ss@);
}

/// Appends `s` as an NBT string.
pub fn write_mc_string(buf: &mut Vec<u8>, s: &str)
    ensures
        final(buf)@ == old(buf)@ + nbt_string_bytes(s@),
{
    let bytes = s.as_bytes();
    let len: u16 = bytes.len() as u16;
    buf.push((len / 256) as u8);
    buf.push((len % 256) as u8);
    write_slice(buf, bytes);
}

/// The value a sequence of VarInt bytes stands for: seven bits from each byte,
/// least significant group first.
pub open spec fn var_uint_value(bytes: Seq<u8>) -> int
    decreases bytes.len(),
{
    if bytes.len() == 0 {
        0
    } else {
        (bytes[0] % 128) as int + 128 * var_uint_value(bytes.drop_first())
    }
}

/// Whether the bytes form one VarInt: the high bit is set on every byte but the last.
pub open spec fn var_uint_shaped(bytes: Seq<u8>) -> bool {
    &&& bytes.len() > 0
    &&& bytes.last() < 128
    &&& forall|i: int| 0 <= i < bytes.len() - 1 ==> #[trigger] bytes[i] >= 128
}

/// A VarInt is shaped as one, and reading it back gives the value's 32 bits.
pub proof fn law_var_int_reads_back(v: i32)
    ensures
        var_uint_shaped(var_int_bytes(v)),
        var_uint_value(var_int_bytes(v)) == (v as u32) as int,
{
    lemma_var_uint_reads_back(v as u32);
}

proof fn lemma_var_uint_reads_back(v: u32)
    ensures
        var_uint_shaped(var_uint_bytes(v)),
        var_uint_value(var_uint_bytes(v)) == v as int,
    decreases v,
{
    let b = var_uint_bytes(v);
    if v < 128 {
        assert(b.drop_first() =~= Seq::<u8>::empty());
        assert((v as u8) % 128 == v);
        assert(var_uint_value(b) == ((v as u8) % 128) as int + 128 * var_uint_value(b.drop_first()));
        assert(var_uint_value(b.drop_first()) == 0);
    } else {
        lemma_var_uint_reads_back(v / 128);
        let rest = var_uint_bytes(v / 128);
        let first = (v % 128 + 128) as u8;
        assert(first == v % 128 + 128);
        assert(first % 128 == v % 128);
        assert(b == seq![first] + rest);
        assert(b.drop_first() =~= rest);
        assert(var_uint_value(b) == (first % 128) as int + 128 * var_uint_value(rest));
        assert(v % 128 + 128 * (v / 128) == v);
        assert forall|i: int| 0 <= i < b.len() - 1 implies #[trigger] b[i] >= 128 by {
            if i > 0 {
                assert(b[i] == rest[i - 1]);
            }
        }
    }
}

/// An NBT string whose UTF-8 length fits in 16 bits begins with that length, big-endian.
pub proof fn law_nbt_string_length_prefix(s: Seq<char>)
    requires
        utf8(s).len() < 65536,
    ensures
        nbt_string_bytes(s)[0] as int * 256 + nbt_string_bytes(s)[1] as int == utf8(s).len(),
        nbt_string_bytes(s).len() == utf8(s).len() + 2,
{
}

} // verus!
