//! Short (8.3) directory-entry names: eleven bytes, an eight-byte base and a
//! three-byte extension, each padded with spaces.
use vstd::prelude::*;
use vstd::string::{StrSliceExecFns, StringExecFns};

verus! {

/// The padding byte of a short name.
pub const NAME_PAD: u8 = 0x20;

/// The byte that a character is stored as in a short name: its code point
/// truncated to eight bits.
pub open spec fn char_byte(c: char) -> u8 {
    ((c as u32) % 256) as u8
}

/// `width` bytes: the bytes of the first characters of `s`, then padding.
pub open spec fn field_bytes(s: Seq<char>, width: nat) -> Seq<u8> {
    Seq::new(width, |i: int| if i < s.len() { char_byte(s[i]) } else { NAME_PAD })
}

/// The eleven bytes of a short name made of a base and an extension.
pub open spec fn packed_name(name: Seq<char>, ext: Seq<char>) -> Seq<u8> {
    field_bytes(name, 8) + field_bytes(ext, 3)
}

/// The first index at or after `i` that holds padding, or the length.
pub open spec fn pad_index(s: Seq<u8>, i: int) -> int
    decreases s.len() - i,
{
    if i < 0 || i >= s.len() || s[i] == NAME_PAD {
        i
    } else {
        pad_index(s, i + 1)
    }
}

/// The text of one field of a short name: its bytes up to the first padding.
pub open spec fn field_text(s: Seq<u8>) -> Seq<char> {
    s.take(pad_index(s, 0)).map_values(|b: u8| b as char)
}

/// The readable form of a short name: `BASE.EXT`, or `BASE` when the
/// extension is empty.
pub open spec fn short_name_text(v: Seq<u8>) -> Seq<char> {
    let base = field_text(v.subrange(0, 8));
    let ext = field_text(v.subrange(8, 11));
    if ext.len() > 0 {
        base + seq!['.'] + ext
    } else {
        base
    }
}

/// What `str::to_uppercase` returns for a text.
pub uninterp spec fn upper_of(s: Seq<char>) -> Seq<char>;

/// Relies on `str::to_uppercase`: its result depends on the characters alone.
#[verifier::external_body]
fn to_upper(s: &str) -> (r: String)
    ensures
        r@ == upper_of(s@),
{
    s.to_uppercase()
}

/// Relies on `String::push`: appends one character.
#[verifier::external_body]
fn push_char(s: &mut String, c: char)
    ensures
        final(s)@ == old(s)@.push(c),
{
    s.push(c)
}

/// Writes the first `width` characters of `s` at `start` in `out`.
fn fill_field(out: &mut [u8; 11], start: usize, width: usize, s: &str)
    requires
        start + width <= 11,
    ensures
        final(out)@.len() == 11,
        forall|i: int| 0 <= i < width && i < s@.len() ==> final(out)@[start + i] == char_byte(s@[i]),
        forall|i: int|
            0 <= i < 11 && !(start <= i < start + width && i - start < s@.len())
                ==> final(out)@[i] == old(out)@[i],
{
    let n: usize = s.unicode_len();
    let lim: usize = if n < width { n } else { width };
    let mut i: usize = 0;
    while i < lim
        invariant
            lim <= width,
            lim <= s@.len(),
            start + width <= 11,
            i <= lim,
            out@.len() == 11,
            forall|j: int| 0 <= j < i ==> out@[start + j] == char_byte(s@[j]),
            forall|j: int|
                0 <= j < 11 && !(start <= j < start + i) ==> out@[j] == old(out)@[j],
        decreases lim - i,
    {
        let c: char = s.get_char(i);
        let code: u32 = c as u32;
        assert(code & 0xFF == code % 256) by (bit_vector);
        let b: u8 = (code & 0xFF) as u8;
        out[start + i] = b;
        i = i + 1;
    }
}

/// Packs an already uppercased base and extension into the eleven bytes of a
/// short name: at most eight characters of the base and three of the
/// extension, each padded with spaces.
pub fn pack_short_name(name: &str, ext: &str) -> (r: [u8; 11])
    ensures
        r@ == packed_name(name@, ext@),
{
    let mut ret: [u8; 11] = [NAME_PAD; 11];
    fill_field(&mut ret, 0, 8, name);
    fill_field(&mut ret, 8, 3, ext);
    assert(ret@ =~= packed_name(name@, ext@));
    ret
}

/// The short name for a base and an extension: the first eight characters of
/// the base and the first three of the extension, uppercased and padded.
pub fn name_ext_to_u8_11(name: &str, ext: &str) -> (r: [u8; 11])
    ensures
        r@ == packed_name(upper_of(prefix(name@, 8)), upper_of(prefix(ext@, 3))),
{
    let name_len: usize = name.unicode_len();
    let ext_len: usize = ext.unicode_len();
    let base: &str = name.substring_char(0, if name_len < 8 { name_len } else { 8 });
    let extension: &str = ext.substring_char(0, if ext_len < 3 { ext_len } else { 3 });
    assert(name@.subrange(0, if name_len < 8 { name_len as int } else { 8 }) =~= prefix(name@, 8));
    assert(ext@.subrange(0, if ext_len < 3 { ext_len as int } else { 3 }) =~= prefix(ext@, 3));
    let upper_name: String = to_upper(base);
    let upper_ext: String = to_upper(extension);
    pack_short_name(upper_name.as_str(), upper_ext.as_str())
}

/// The first `n` characters of `s`, or all of them when it is shorter.
pub open spec fn prefix(s: Seq<char>, n: nat) -> Seq<char> {
    if s.len() <= n {
        s
    } else {
        s.take(n as int)
    }
}

/// The index of the first `.` in `s`, if any.
pub open spec fn dot_index(s: Seq<char>) -> Option<int> {
    if exists|i: int| 0 <= i < s.len() && s[i] == '.' {
        Some(choose|i: int| 0 <= i < s.len() && s[i] == '.' && forall|j: int| 0 <= j < i ==> s[j] != '.')
    } else {
        None
    }
}

/// The base and extension that a text such as `NAME.EXT` stands for: the
/// text before the first `.` and the text after it.
pub open spec fn split_name(s: Seq<char>) -> (Seq<char>, Seq<char>) {
    match dot_index(s) {
        None => (s, Seq::empty()),
        Some(p) => (s.take(p), s.skip(p + 1)),
    }
}

/// The short name for a text such as `name.ext`.
pub fn str_to_u8_11(v: &str) -> (r: [u8; 11])
    ensures
        r@ == packed_name(upper_of(prefix(split_name(v@).0, 8)), upper_of(prefix(split_name(v@).1, 3))),
{
    let n: usize = v.unicode_len();
    let mut i: usize = 0;
    while i < n
        invariant
            n == v@.len(),
            i <= n,
            forall|j: int| 0 <= j < i ==> v@[j] != '.',
        ensures
            i <= n,
            forall|j: int| 0 <= j < i ==> v@[j] != '.',
            i < n ==> v@[i as int] == '.',
        decreases n - i,
    {
        if v.get_char(i) == '.' {
            break;
        }
        i = i + 1;
    }
    if i < n {
        assert(v@[i as int] == '.');
        let ghost p = choose|k: int| 0 <= k < v@.len() && v@[k] == '.' && forall|j: int| 0 <= j < k ==> v@[j] != '.';
        assert(p == i);
        let base: &str = v.substring_char(0, i);
        let ext: &str = v.substring_char(i + 1, n);
        assert(base@ =~= v@.take(i as int));
        assert(ext@ =~= v@.skip(i + 1));
        name_ext_to_u8_11(base, ext)
    } else {
        assert(dot_index(v@) is None);
        let empty: &str = v.substring_char(n, n);
        assert(empty@ =~= Seq::<char>::empty());
        name_ext_to_u8_11(v, empty)
    }
}

/// Collects the characters of `v[start..end]` up to the first padding byte.
fn field_to_string(v: &[u8; 11], start: usize, end: usize) -> (r: String)
    requires
        start <= end <= 11,
    ensures
        r@ == field_text(v@.subrange(start as int, end as int)),
{
    let ghost s = v@.subrange(start as int, end as int);
    let mut out: String = String::new();
    let mut i: usize = start;
    while i < end
        invariant
            start <= i <= end <= 11,
            s == v@.subrange(start as int, end as int),
            pad_index(s, 0) == pad_index(s, i - start),
            forall|j: int| 0 <= j < i - start ==> s[j] != NAME_PAD,
            out@ == s.take(i - start).map_values(|b: u8| b as char),
        ensures
            start <= i <= end,
            pad_index(s, 0) == pad_index(s, i - start),
            out@ == s.take(i - start).map_values(|b: u8| b as char),
            i < end ==> s[i - start] == NAME_PAD,
        decreases end - i,
    {
        let b: u8 = v[i];
        if b == NAME_PAD {
            break;
        }
        push_char(&mut out, b as char);
        assert(s.take(i + 1 - start) =~= s.take(i - start).push(b));
        assert(out@ =~= s.take(i + 1 - start).map_values(|b: u8| b as char));
        i = i + 1;
    }
    assert(pad_index(s, i - start) == i - start);
    out
}

/// The readable form of a short name: `BASE.EXT`, or `BASE` when the
/// extension is all padding.
pub fn u8_11_to_string(v: &[u8; 11]) -> (r: String)
    ensures
        r@ == short_name_text(v@),
{
    let mut name: String = field_to_string(v, 0, 8);
    let ext: String = field_to_string(v, 8, 11);
    if ext.as_str().unicode_len() > 0 {
        proof {
            reveal_strlit(".");
        }
        name.append(".");
        name.append(ext.as_str());
        name
    } else {
        name
    }
}

/// A character that a short name holds as itself: printable ASCII other
/// than the space.
pub open spec fn plain_name_char(c: char) -> bool {
    ' ' < c && c <= '~'
}

proof fn lemma_pad_index_of_field(s: Seq<char>, width: nat, i: int)
    requires
        s.len() <= width,
        0 <= i <= s.len(),
        forall|j: int| 0 <= j < s.len() ==> plain_name_char(#[trigger] s[j]),
    ensures
        pad_index(field_bytes(s, width), i) == s.len(),
    decreases s.len() - i,
{
    let f = field_bytes(s, width);
    if i < s.len() {
        let c = s[i];
        assert(plain_name_char(c));
        assert(f[i] == char_byte(c));
        assert(char_byte(c) != NAME_PAD);
        lemma_pad_index_of_field(s, width, i + 1);
    }
}

proof fn lemma_field_round_trip(s: Seq<char>, width: nat)
    requires
        s.len() <= width,
        forall|j: int| 0 <= j < s.len() ==> plain_name_char(#[trigger] s[j]),
    ensures
        field_text(field_bytes(s, width)) == s,
{
    lemma_pad_index_of_field(s, width, 0);
    let f = field_bytes(s, width);
    let t = field_text(f);
    assert forall|j: int| 0 <= j < s.len() implies t[j] == s[j] by {
        let c = s[j];
        assert(plain_name_char(c));
        assert((char_byte(c) as char) == c);
    }
    assert(t =~= s);
}

/// For a base of at most eight and an extension of at most three printable
/// ASCII characters other than the space, packing them and reading the short
/// name back gives `BASE.EXT`, or `BASE` when the extension is empty.
pub proof fn lemma_short_name_round_trip(name: Seq<char>, ext: Seq<char>)
    requires
        name.len() <= 8,
        ext.len() <= 3,
        forall|j: int| 0 <= j < name.len() ==> plain_name_char(#[trigger] name[j]),
        forall|j: int| 0 <= j < ext.len() ==> plain_name_char(#[trigger] ext[j]),
    ensures
        short_name_text(packed_name(name, ext)) == (if ext.len() > 0 {
            name + seq!['.'] + ext
        } else {
            name
        }),
{
    let v = packed_name(name, ext);
    assert(v.subrange(0, 8) =~= field_bytes(name, 8));
    assert(v.subrange(8, 11) =~= field_bytes(ext, 3));
    lemma_field_round_trip(name, 8);
    lemma_field_round_trip(ext, 3);
}

} // verus!
