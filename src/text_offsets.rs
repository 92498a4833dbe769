//! Conversions between UTF-8 byte offsets, character counts and UTF-16
//! code unit offsets within a string.
use vstd::prelude::*;
use vstd::std_specs::iter::IteratorSpec;
use vstd::string::StringSliceAdditionalSpecFns;
use vstd::utf8::*;

verus! {

broadcast use {vstd::string::group_string_axioms, vstd::slice::group_slice_axioms};

/// Number of UTF-8 bytes that encode `c`.
pub open spec fn utf8_width(c: char) -> nat {
    let v = c as u32;
    if v <= 0x7f {
        1
    } else if v <= 0x7ff {
        2
    } else if v <= 0xffff {
        3
    } else {
        4
    }
}

/// Number of UTF-16 code units that encode `c` (two for a surrogate pair).
pub open spec fn utf16_width(c: char) -> nat {
    if (c as u32) <= 0xffff {
        1
    } else {
        2
    }
}

/// Length in UTF-8 bytes of a character sequence.
pub open spec fn utf8_len(s: Seq<char>) -> nat
    decreases s.len(),
{
    if s.len() == 0 {
        0
    } else {
        utf8_width(s[0]) + utf8_len(s.drop_first())
    }
}

/// Length in UTF-16 code units of a character sequence.
pub open spec fn utf16_len(s: Seq<char>) -> nat
    decreases s.len(),
{
    if s.len() == 0 {
        0
    } else {
        utf16_width(s[0]) + utf16_len(s.drop_first())
    }
}

/// `off` is the byte offset at which some character of `s` starts, or the
/// byte length of `s`.
pub open spec fn char_boundary(s: Seq<char>, off: int) -> bool {
    exists|k: int| 0 <= k <= s.len() && #[trigger] utf8_len(s.take(k)) == off
}

/// `off` is the UTF-16 offset at which some character of `s` starts, or the
/// UTF-16 length of `s`.
pub open spec fn utf16_boundary(s: Seq<char>, off: int) -> bool {
    exists|k: int| 0 <= k <= s.len() && #[trigger] utf16_len(s.take(k)) == off
}

proof fn lemma_scalar_width(c: char)
    ensures
        encode_scalar(c as u32).len() == utf8_width(c),
        1 <= utf16_width(c) <= utf8_width(c),
{
    char_is_scalar(c);
}

proof fn lemma_utf8_len_concat(a: Seq<char>, b: Seq<char>)
    ensures
        utf8_len(a + b) == utf8_len(a) + utf8_len(b),
        utf16_len(a + b) == utf16_len(a) + utf16_len(b),
    decreases a.len(),
{
    if a.len() == 0 {
        assert(a + b =~= b);
    } else {
        assert((a + b).drop_first() =~= a.drop_first() + b);
        lemma_utf8_len_concat(a.drop_first(), b);
    }
}

/// Adding one character to a prefix adds that character's widths.
proof fn lemma_prefix_step(s: Seq<char>, k: int)
    requires
        0 <= k < s.len(),
    ensures
        utf8_len(s.take(k + 1)) == utf8_len(s.take(k)) + utf8_width(s[k]),
        utf16_len(s.take(k + 1)) == utf16_len(s.take(k)) + utf16_width(s[k]),
{
    assert(s.take(k + 1) =~= s.take(k) + seq![s[k]]);
    lemma_utf8_len_concat(s.take(k), seq![s[k]]);
    assert(seq![s[k]].drop_first() =~= Seq::<char>::empty());
    assert(utf8_len(seq![s[k]]) == utf8_width(s[k]) + utf8_len(seq![s[k]].drop_first()));
    assert(utf16_len(seq![s[k]]) == utf16_width(s[k]) + utf16_len(seq![s[k]].drop_first()));
}

/// Prefix lengths grow strictly with the number of characters taken.
proof fn lemma_prefix_strict(s: Seq<char>, j: int, k: int)
    requires
        0 <= j < k <= s.len(),
    ensures
        utf8_len(s.take(j)) < utf8_len(s.take(k)),
        utf16_len(s.take(j)) < utf16_len(s.take(k)),
    decreases k - j,
{
    lemma_prefix_step(s, k - 1);
    lemma_scalar_width(s[k - 1]);
    if j < k - 1 {
        lemma_prefix_strict(s, j, k - 1);
    }
}

proof fn lemma_prefix_le_whole(s: Seq<char>, k: int)
    requires
        0 <= k <= s.len(),
    ensures
        utf8_len(s.take(k)) <= utf8_len(s),
        utf16_len(s.take(k)) <= utf16_len(s),
{
    assert(s =~= s.take(k) + s.skip(k));
    lemma_utf8_len_concat(s.take(k), s.skip(k));
}

proof fn lemma_utf16_le_utf8(s: Seq<char>)
    ensures
        s.len() <= utf16_len(s) <= utf8_len(s),
    decreases s.len(),
{
    if s.len() > 0 {
        lemma_scalar_width(s[0]);
        lemma_utf16_le_utf8(s.drop_first());
    }
}

proof fn lemma_encode_len(s: Seq<char>)
    ensures
        encode_utf8(s).len() == utf8_len(s),
    decreases s.len(),
{
    if s.len() > 0 {
        lemma_scalar_width(s[0]);
        lemma_encode_len(s.drop_first());
    }
}

/// Prefix lengths are ordered as the numbers of characters taken.
proof fn lemma_prefix_order(s: Seq<char>, j: int, k: int)
    requires
        0 <= j <= s.len(),
        0 <= k <= s.len(),
    ensures
        j <= k <==> utf8_len(s.take(j)) <= utf8_len(s.take(k)),
        j <= k <==> utf16_len(s.take(j)) <= utf16_len(s.take(k)),
{
    if j < k {
        lemma_prefix_strict(s, j, k);
    } else if k < j {
        lemma_prefix_strict(s, k, j);
    }
}

/// The byte-level boundary test of a UTF-8 encoding agrees with
/// `char_boundary` on the characters it encodes.
proof fn lemma_boundary_bytes(s: Seq<char>, off: int)
    ensures
        is_char_boundary(encode_utf8(s), off) <==> char_boundary(s, off),
    decreases s.len(),
{
    broadcast use encode_utf8_valid_utf8;

    let bytes = encode_utf8(s);
    lemma_encode_len(s);
    if off == 0 {
        assert(s.take(0) =~= Seq::<char>::empty());
        assert(utf8_len(s.take(0)) == 0);
    } else if off < 0 || bytes.len() < off {
        if char_boundary(s, off) {
            let k = choose|k: int| 0 <= k <= s.len() && #[trigger] utf8_len(s.take(k)) == off;
            lemma_prefix_le_whole(s, k);
        }
    } else {
        let rest = s.drop_first();
        encode_utf8_first_scalar(s);
        lemma_scalar_width(s[0]);
        let w = utf8_width(s[0]) as int;
        assert(pop_first_scalar(bytes) =~= encode_utf8(rest));
        lemma_boundary_bytes(rest, off - w);
        if char_boundary(rest, off - w) {
            let k = choose|k: int|
                0 <= k <= rest.len() && #[trigger] utf8_len(rest.take(k)) == off - w;
            assert(s.take(k + 1).drop_first() =~= rest.take(k));
            assert(utf8_len(s.take(k + 1)) == off);
        }
        if char_boundary(s, off) {
            let k = choose|k: int| 0 <= k <= s.len() && #[trigger] utf8_len(s.take(k)) == off;
            assert(k != 0) by {
                assert(s.take(0) =~= Seq::<char>::empty());
            }
            assert(s.take(k).drop_first() =~= rest.take(k - 1));
            assert(utf8_len(rest.take(k - 1)) == off - w);
        }
    }
}

/// What `str::len` and `str::is_char_boundary` report, restated over the
/// characters of the string.
proof fn lemma_str_facts(text: &str, off: int)
    ensures
        text.spec_bytes().len() == utf8_len(text@),
        is_char_boundary(text.spec_bytes(), off) <==> char_boundary(text@, off),
        char_boundary(text@, 0),
        char_boundary(text@, utf8_len(text@) as int),
        char_boundary(text@, off) ==> 0 <= off <= utf8_len(text@),
{
    lemma_encode_len(text@);
    lemma_boundary_bytes(text@, off);
    assert(text@.take(0) =~= Seq::<char>::empty());
    assert(utf8_len(text@.take(0)) == 0);
    assert(text@.take(text@.len() as int) =~= text@);
    if char_boundary(text@, off) {
        let k = choose|k: int| 0 <= k <= text@.len() && #[trigger] utf8_len(text@.take(k)) == off;
        lemma_prefix_le_whole(text@, k);
    }
}

/// Whether `offset` is within the text and on a character boundary.
pub fn is_valid_byte_offset(text: &str, offset: usize) -> (r: bool)
    ensures
        r == char_boundary(text@, offset as int),
{
    proof {
        lemma_str_facts(text, offset as int);
    }
    offset <= text.as_bytes().len() && text.is_char_boundary(offset)
}

/// Largest boundary at or below `offset`; the byte length when `offset`
/// is at or past the end.
pub fn floor_byte_offset(text: &str, offset: usize) -> (r: usize)
    ensures
        offset >= utf8_len(text@) ==> r == utf8_len(text@),
        offset < utf8_len(text@) ==> r <= offset && char_boundary(text@, r as int) && forall|j: int|
            r < j <= offset ==> !char_boundary(text@, j),
{
    let n = text.as_bytes().len();
    proof {
        lemma_str_facts(text, 0);
    }
    if offset >= n {
        return n;
    }
    let mut pos = offset;
    while pos > 0 && !text.is_char_boundary(pos)
        invariant
            pos <= offset < n,
            n == utf8_len(text@),
            forall|j: int| pos < j <= offset ==> !char_boundary(text@, j),
        decreases pos,
    {
        proof {
            lemma_str_facts(text, pos as int);
        }
        pos -= 1;
    }
    proof {
        lemma_str_facts(text, pos as int);
    }
    pos
}

/// Smallest boundary at or above `offset`; the byte length when `offset`
/// is at or past the end.
pub fn ceil_byte_offset(text: &str, offset: usize) -> (r: usize)
    ensures
        offset >= utf8_len(text@) ==> r == utf8_len(text@),
        offset < utf8_len(text@) ==> offset <= r && char_boundary(text@, r as int) && forall|j: int|
            offset <= j < r ==> !char_boundary(text@, j),
{
    let n = text.as_bytes().len();
    proof {
        lemma_str_facts(text, 0);
    }
    if offset >= n {
        return n;
    }
    let mut pos = offset;
    while pos < n && !text.is_char_boundary(pos)
        invariant
            offset <= pos <= n,
            n == utf8_len(text@),
            char_boundary(text@, n as int),
            forall|j: int| offset <= j < pos ==> !char_boundary(text@, j),
        decreases n - pos,
    {
        proof {
            lemma_str_facts(text, pos as int);
        }
        pos += 1;
    }
    proof {
        lemma_str_facts(text, pos as int);
    }
    pos
}

/// UTF-8 width of a character, from its scalar value.
fn char_utf8_width(c: char) -> (w: usize)
    ensures
        w == utf8_width(c),
{
    let v = c as u32;
    if v <= 0x7f {
        1
    } else if v <= 0x7ff {
        2
    } else if v <= 0xffff {
        3
    } else {
        4
    }
}

/// UTF-16 width of a character, from its scalar value.
fn char_utf16_width(c: char) -> (w: usize)
    ensures
        w == utf16_width(c),
{
    if (c as u32) <= 0xffff {
        1
    } else {
        2
    }
}

/// Number of characters before the boundary `byte_offset`.
pub fn byte_offset_to_char_count(text: &str, byte_offset: usize) -> (r: usize)
    requires
        char_boundary(text@, byte_offset as int),
    ensures
        r <= text@.len(),
        utf8_len(text@.take(r as int)) == byte_offset,
{
    let n = text.as_bytes().len();
    proof {
        lemma_str_facts(text, 0);
        lemma_utf16_le_utf8(text@);
    }
    let ghost target = choose|k: int|
        0 <= k <= text@.len() && #[trigger] utf8_len(text@.take(k)) == byte_offset;
    let mut chars = text.chars();
    let mut count: usize = 0;
    let mut bytes: usize = 0;
    loop
        invariant
            n == utf8_len(text@),
            text@.len() <= n,
            0 <= target <= text@.len(),
            utf8_len(text@.take(target)) == byte_offset,
            count <= target,
            chars.obeys_prophetic_iter_laws(),
            IteratorSpec::remaining(&chars) == text@.skip(count as int),
            bytes == utf8_len(text@.take(count as int)),
        decreases text@.len() - count,
    {
        if bytes == byte_offset {
            proof {
                lemma_prefix_order(text@, count as int, target);
            }
            return count;
        }
        proof {
            lemma_prefix_order(text@, count as int, target);
        }
        match chars.next() {
            None => {
                return count;
            },
            Some(c) => {
                proof {
                    lemma_prefix_step(text@, count as int);
                    lemma_prefix_le_whole(text@, count as int + 1);
                    assert(text@.skip(count as int).drop_first() =~= text@.skip(count as int + 1));
                }
                bytes = bytes + char_utf8_width(c);
                count = count + 1;
            },
        }
    }
}

/// Byte offset after the first `char_count` characters, or the byte length
/// when the text has fewer characters.
pub fn char_count_to_byte_offset(text: &str, char_count: usize) -> (r: usize)
    ensures
        char_count <= text@.len() ==> r == utf8_len(text@.take(char_count as int)),
        char_count > text@.len() ==> r == utf8_len(text@),
{
    let n = text.as_bytes().len();
    proof {
        lemma_str_facts(text, 0);
        lemma_utf16_le_utf8(text@);
    }
    let mut chars = text.chars();
    let mut count: usize = 0;
    let mut bytes: usize = 0;
    loop
        invariant
            n == utf8_len(text@),
            text@.len() <= n,
            count <= text@.len(),
            count <= char_count,
            chars.obeys_prophetic_iter_laws(),
            IteratorSpec::remaining(&chars) == text@.skip(count as int),
            bytes == utf8_len(text@.take(count as int)),
        decreases text@.len() - count,
    {
        if count == char_count {
            return bytes;
        }
        match chars.next() {
            None => {
                assert(text@.take(count as int) =~= text@);
                return bytes;
            },
            Some(c) => {
                proof {
                    lemma_prefix_step(text@, count as int);
                    lemma_prefix_le_whole(text@, count as int + 1);
                    assert(text@.skip(count as int).drop_first() =~= text@.skip(count as int + 1));
                }
                bytes = bytes + char_utf8_width(c);
                count = count + 1;
            },
        }
    }
}

/// Byte offset of the character boundary at UTF-16 offset `utf16_offset`;
/// `None` when that offset is past the end or inside a surrogate pair.
pub fn utf16_offset_to_byte_offset(text: &str, utf16_offset: usize) -> (r: Option<usize>)
    ensures
        match r {
            Some(b) => exists|k: int|
                0 <= k <= text@.len() && #[trigger] utf16_len(text@.take(k)) == utf16_offset
                    && utf8_len(text@.take(k)) == b,
            None => !utf16_boundary(text@, utf16_offset as int),
        },
{
    let n = text.as_bytes().len();
    proof {
        lemma_str_facts(text, 0);
        lemma_utf16_le_utf8(text@);
        assert(text@.take(0) =~= Seq::<char>::empty());
        assert(utf16_len(text@.take(0)) == 0);
    }
    if utf16_offset == 0 {
        return Some(0);
    }
    let mut chars = text.chars();
    let mut count: usize = 0;
    let mut units: usize = 0;
    let mut bytes: usize = 0;
    loop
        invariant
            n == utf8_len(text@),
            text@.len() <= n,
            count <= text@.len(),
            chars.obeys_prophetic_iter_laws(),
            IteratorSpec::remaining(&chars) == text@.skip(count as int),
            bytes == utf8_len(text@.take(count as int)),
            units == utf16_len(text@.take(count as int)),
            units <= utf16_offset,
        decreases text@.len() - count,
    {
        if units == utf16_offset {
            return Some(bytes);
        }
        match chars.next() {
            None => {
                proof {
                    assert(text@.take(count as int) =~= text@);
                    assert forall|k: int| 0 <= k <= text@.len() implies #[trigger] utf16_len(
                        text@.take(k),
                    ) != utf16_offset by {
                        lemma_prefix_order(text@, k, count as int);
                    }
                }
                return None;
            },
            Some(c) => {
                proof {
                    lemma_prefix_step(text@, count as int);
                    lemma_prefix_le_whole(text@, count as int + 1);
                    lemma_utf16_le_utf8(text@.take(count as int + 1));
                    assert(text@.skip(count as int).drop_first() =~= text@.skip(count as int + 1));
                }
                let w16 = char_utf16_width(c);
                bytes = bytes + char_utf8_width(c);
                units = units + w16;
                count = count + 1;
                if w16 == 2 && units > utf16_offset {
                    proof {
                        assert forall|k: int| 0 <= k <= text@.len() implies #[trigger] utf16_len(
                            text@.take(k),
                        ) != utf16_offset by {
                            lemma_prefix_order(text@, k, count as int);
                            lemma_prefix_order(text@, k, count as int - 1);
                        }
                    }
                    return None;
                }
            },
        }
    }
}

/// UTF-16 offset of the boundary `byte_offset`.
pub fn byte_offset_to_utf16_offset(text: &str, byte_offset: usize) -> (r: usize)
    requires
        char_boundary(text@, byte_offset as int),
    ensures
        exists|k: int|
            0 <= k <= text@.len() && #[trigger] utf8_len(text@.take(k)) == byte_offset
                && utf16_len(text@.take(k)) == r,
{
    let n = text.as_bytes().len();
    proof {
        lemma_str_facts(text, 0);
        lemma_utf16_le_utf8(text@);
    }
    let ghost target = choose|k: int|
        0 <= k <= text@.len() && #[trigger] utf8_len(text@.take(k)) == byte_offset;
    let mut chars = text.chars();
    let mut count: usize = 0;
    let mut units: usize = 0;
    let mut bytes: usize = 0;
    loop
        invariant
            n == utf8_len(text@),
            text@.len() <= n,
            0 <= target <= text@.len(),
            utf8_len(text@.take(target)) == byte_offset,
            count <= target,
            chars.obeys_prophetic_iter_laws(),
            IteratorSpec::remaining(&chars) == text@.skip(count as int),
            bytes == utf8_len(text@.take(count as int)),
            units == utf16_len(text@.take(count as int)),
        decreases text@.len() - count,
    {
        if bytes == byte_offset {
            return units;
        }
        proof {
            lemma_prefix_order(text@, count as int, target);
        }
        match chars.next() {
            None => {
                return units;
            },
            Some(c) => {
                proof {
                    lemma_prefix_step(text@, count as int);
                    lemma_prefix_le_whole(text@, count as int + 1);
                    lemma_utf16_le_utf8(text@.take(count as int + 1));
                    assert(text@.skip(count as int).drop_first() =~= text@.skip(count as int + 1));
                }
                bytes = bytes + char_utf8_width(c);
                units = units + char_utf16_width(c);
                count = count + 1;
            },
        }
    }
}

/// Byte offset of the first character boundary whose UTF-16 offset is at
/// least `utf16_offset` (an offset inside a surrogate pair moves forward),
/// or the byte length when there is none.
pub fn utf16_offset_to_byte_offset_clamped(text: &str, utf16_offset: usize) -> (r: usize)
    ensures
        exists|k: int|
            0 <= k <= text@.len() && #[trigger] utf8_len(text@.take(k)) == r && (k == text@.len()
                || utf16_len(text@.take(k)) >= utf16_offset) && forall|j: int|
                0 <= j < k ==> #[trigger] utf16_len(text@.take(j)) < utf16_offset,
{
    let n = text.as_bytes().len();
    proof {
        lemma_str_facts(text, 0);
        lemma_utf16_le_utf8(text@);
    }
    let mut chars = text.chars();
    let mut count: usize = 0;
    let mut units: usize = 0;
    let mut bytes: usize = 0;
    loop
        invariant
            n == utf8_len(text@),
            text@.len() <= n,
            count <= text@.len(),
            chars.obeys_prophetic_iter_laws(),
            IteratorSpec::remaining(&chars) == text@.skip(count as int),
            bytes == utf8_len(text@.take(count as int)),
            units == utf16_len(text@.take(count as int)),
            forall|j: int| 0 <= j < count ==> #[trigger] utf16_len(text@.take(j)) < utf16_offset,
        decreases text@.len() - count,
    {
        if units >= utf16_offset {
            return bytes;
        }
        match chars.next() {
            None => {
                return bytes;
            },
            Some(c) => {
                proof {
                    lemma_prefix_step(text@, count as int);
                    lemma_prefix_le_whole(text@, count as int + 1);
                    lemma_utf16_le_utf8(text@.take(count as int + 1));
                    assert(text@.skip(count as int).drop_first() =~= text@.skip(count as int + 1));
                }
                bytes = bytes + char_utf8_width(c);
                units = units + char_utf16_width(c);
                count = count + 1;
            },
        }
    }
}

} // verus!
