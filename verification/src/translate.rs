//! Conversions between raw native values and Rust values.
//!
//! A native boolean is a C `int`. Native text is a byte string that ends at
//! its first NUL byte, so text that holds a NUL itself has no native form.

use vstd::prelude::*;
use vstd::utf8::{
    char_is_scalar, char_u32_cast, encode_scalar, encode_utf8, has_width_1_encoding, is_scalar,
    leading_byte_width_1,
};

verus! {

/// The truth value that a native boolean stands for: zero is false, any
/// other value is true.
pub open spec fn flag_of(raw: i32) -> bool {
    raw != 0
}

/// Whether a byte string holds a NUL byte.
pub open spec fn holds_nul(bytes: Seq<u8>) -> bool {
    bytes.contains(0u8)
}

/// The bytes of `bytes` followed by the terminating NUL.
pub open spec fn terminated(bytes: Seq<u8>) -> Seq<u8> {
    bytes.push(0u8)
}

/// What a native reader takes out of a buffer: the bytes before the first
/// NUL, or all of them where there is none.
pub open spec fn read_to_nul(buf: Seq<u8>) -> Seq<u8>
    decreases buf.len(),
{
    if buf.len() == 0 || buf[0] == 0u8 {
        Seq::empty()
    } else {
        seq![buf[0]] + read_to_nul(buf.subrange(1, buf.len() as int))
    }
}

/// A byte string without a NUL, once terminated, is read back whole by a
/// native reader.
pub proof fn lemma_terminated_reads_back(bytes: Seq<u8>)
    requires
        !holds_nul(bytes),
    ensures
        read_to_nul(terminated(bytes)) == bytes,
    decreases bytes.len(),
{
    let buf = terminated(bytes);
    if bytes.len() == 0 {
        assert(buf[0] == 0u8);
        assert(read_to_nul(buf) =~= bytes);
    } else {
        let rest = bytes.subrange(1, bytes.len() as int);
        assert(bytes.contains(bytes[0]));
        assert(!holds_nul(rest)) by {
            if rest.contains(0u8) {
                let k = choose|k: int| 0 <= k < rest.len() && rest[k] == 0u8;
                assert(bytes[k + 1] == 0u8);
            }
        }
        lemma_terminated_reads_back(rest);
        assert(buf.subrange(1, buf.len() as int) =~= terminated(rest));
        assert(buf[0] == bytes[0]);
        assert(seq![bytes[0]] + rest =~= bytes);
    }
}

/// A native reader never takes out a NUL, and never more than the buffer
/// holds.
pub proof fn lemma_read_holds_no_nul(buf: Seq<u8>)
    ensures
        !holds_nul(read_to_nul(buf)),
        read_to_nul(buf).len() <= buf.len(),
    decreases buf.len(),
{
    if buf.len() == 0 || buf[0] == 0u8 {
    } else {
        let rest = buf.subrange(1, buf.len() as int);
        lemma_read_holds_no_nul(rest);
        let head = seq![buf[0]];
        let read = read_to_nul(buf);
        assert(read == head + read_to_nul(rest));
        if read.contains(0u8) {
            let k = choose|k: int| 0 <= k < read.len() && read[k] == 0u8;
            if k > 0 {
                assert(read_to_nul(rest)[k - 1] == 0u8);
            }
        }
    }
}

/// Text that holds a NUL has no native form: whatever the buffer, a native
/// reader takes something else out of it.
pub proof fn lemma_nul_text_has_no_native_form(bytes: Seq<u8>, buf: Seq<u8>)
    requires
        holds_nul(bytes),
    ensures
        read_to_nul(buf) != bytes,
{
    lemma_read_holds_no_nul(buf);
}

/// A concatenation holds a NUL exactly when one of its parts does.
pub proof fn lemma_holds_nul_concat(a: Seq<u8>, b: Seq<u8>)
    ensures
        holds_nul(a + b) <==> holds_nul(a) || holds_nul(b),
{
    let ab = a + b;
    if holds_nul(a) {
        let k = choose|k: int| 0 <= k < a.len() && a[k] == 0u8;
        assert(ab[k] == 0u8);
    }
    if holds_nul(b) {
        let k = choose|k: int| 0 <= k < b.len() && b[k] == 0u8;
        assert(ab[a.len() + k] == 0u8);
    }
    if holds_nul(ab) {
        let k = choose|k: int| 0 <= k < ab.len() && ab[k] == 0u8;
        if k < a.len() {
            assert(a[k] == 0u8);
        } else {
            assert(b[k - a.len()] == 0u8);
        }
    }
}

/// The UTF-8 encoding of a scalar value holds a NUL byte exactly when the
/// scalar is zero.
pub proof fn lemma_scalar_nul(scalar: u32)
    requires
        is_scalar(scalar),
    ensures
        holds_nul(encode_scalar(scalar)) <==> scalar == 0,
{
    let enc = encode_scalar(scalar);
    assert(forall|x: u8| (0x80u8 | x) != 0u8) by (bit_vector);
    assert(forall|x: u8| (0xC0u8 | x) != 0u8) by (bit_vector);
    assert(forall|x: u8| (0xE0u8 | x) != 0u8) by (bit_vector);
    assert(forall|x: u8| (0xF0u8 | x) != 0u8) by (bit_vector);
    assert(scalar <= 0x7F ==> (((scalar & 0x7F) as u8) == 0u8 <==> scalar == 0)) by (bit_vector);
    if has_width_1_encoding(scalar) {
        assert(enc[0] == leading_byte_width_1(scalar));
    } else {
        assert(forall|k: int| 0 <= k < enc.len() ==> enc[k] != 0u8);
    }
}

/// The UTF-8 encoding of a text holds a NUL byte exactly when the text
/// holds the character NUL.
pub proof fn lemma_text_nul(chars: Seq<char>)
    ensures
        holds_nul(encode_utf8(chars)) <==> chars.contains('\0'),
    decreases chars.len(),
{
    if chars.len() == 0 {
        assert(encode_utf8(chars) =~= Seq::<u8>::empty());
    } else {
        let rest = chars.drop_first();
        let head: char = chars[0];
        let first: u32 = head as u32;
        char_is_scalar(head);
        lemma_scalar_nul(first);
        lemma_text_nul(rest);
        lemma_holds_nul_concat(encode_scalar(first), encode_utf8(rest));
        assert(first == 0 <==> head == '\0') by {
            char_u32_cast(head, first);
            char_u32_cast('\0', 0u32);
        }
        if chars.contains('\0') {
            let k = choose|k: int| 0 <= k < chars.len() && chars[k] == '\0';
            if k > 0 {
                assert(rest[k - 1] == '\0');
            }
        }
        if rest.contains('\0') {
            let k = choose|k: int| 0 <= k < rest.len() && rest[k] == '\0';
            assert(chars[k + 1] == '\0');
        }
    }
}

/// Converts a native boolean, as a display query returns it, to `bool`.
pub fn flag_from_native(raw: i32) -> (flag: bool)
    ensures
        flag == flag_of(raw),
{
    raw != 0
}

/// Builds the native form of `text`, as a display name or a startup
/// identifier is handed over: its UTF-8 bytes followed by one NUL.
///
/// Returns `None` exactly when `text` holds the character NUL, since a
/// native reader would then stop short of its end.
pub fn text_to_native(text: &str) -> (out: Option<Vec<u8>>)
    ensures
        out is Some <==> !text@.contains('\0'),
        out matches Some(buf) ==> buf@ == terminated(encode_utf8(text@)) && read_to_nul(buf@)
            == encode_utf8(text@),
{
    proof {
        lemma_text_nul(text@);
    }
    let bytes = text.as_bytes();
    let mut buf: Vec<u8> = Vec::new();
    let mut i: usize = 0;
    while i < bytes.len()
        invariant
            i <= bytes.len(),
            bytes@ == encode_utf8(text@),
            holds_nul(bytes@) <==> text@.contains('\0'),
            buf@ == bytes@.take(i as int),
            !holds_nul(buf@),
        decreases bytes.len() - i,
    {
        let b: u8 = bytes[i];
        if b == 0 {
            assert(bytes@[i as int] == 0u8);
            return None;
        }
        let ghost before = buf@;
        buf.push(b);
        proof {
            assert(buf@ =~= bytes@.take(i + 1));
            if buf@.contains(0u8) {
                let k = choose|k: int| 0 <= k < buf@.len() && buf@[k] == 0u8;
                assert(before[k] == 0u8);
            }
        }
        i += 1;
    }
    proof {
        assert(buf@ =~= bytes@);
        lemma_terminated_reads_back(bytes@);
    }
    buf.push(0);
    Some(buf)
}

} // verus!
