//! Text primitives over UTF-8: byte-offset substrings, concatenation and
//! decimal rendering, each stated over the character view of a string.
use vstd::prelude::*;
use vstd::utf8::*;
use vstd::string::StringSliceAdditionalSpecFns;
use vstd::string::StrSliceExecFns;
use vstd::string::StringExecFns;

verus! {

broadcast use vstd::utf8::encode_utf8_decode_utf8, vstd::utf8::encode_utf8_valid_utf8,
    vstd::slice::group_slice_axioms;

/// The UTF-8 bytes of a character sequence.
pub open spec fn utf8(s: Seq<char>) -> Seq<u8> {
    encode_utf8(s)
}

/// The length of `s` in UTF-8 bytes (what `str::len` returns).
pub open spec fn byte_len(s: Seq<char>) -> int {
    encode_utf8(s).len() as int
}

/// Whether byte offset `i` falls on a character boundary of `s`.
pub open spec fn on_boundary(s: Seq<char>, i: int) -> bool {
    is_char_boundary(encode_utf8(s), i)
}

/// The characters encoded between byte offsets `a` and `b` of `s`
/// (what `&s[a..b]` denotes).
pub open spec fn between(s: Seq<char>, a: int, b: int) -> Seq<char> {
    decode_utf8(encode_utf8(s).subrange(a, b))
}

/// The length of `s` in UTF-8 bytes (`str::len`).
pub fn str_byte_len(s: &str) -> (n: usize)
    ensures
        n == byte_len(s@),
{
    s.as_bytes().len()
}

/// Byte offset 0 is a boundary of every string.
pub broadcast proof fn lemma_start_boundary(s: Seq<char>)
    ensures
        #[trigger] on_boundary(s, 0),
{
}

/// The end of every string is a boundary.
pub broadcast proof fn lemma_end_boundary(s: Seq<char>)
    ensures
        #[trigger] on_boundary(s, byte_len(s)),
{
    is_char_boundary_start_end_of_seq(encode_utf8(s));
}

/// Splitting at a boundary keeps the suffix's boundaries, shifted.
proof fn lemma_suffix_boundary(bytes: Seq<u8>, a: int, b: int)
    requires
        valid_utf8(bytes),
        0 <= a <= b <= bytes.len(),
        is_char_boundary(bytes, a),
        is_char_boundary(bytes, b),
    ensures
        valid_utf8(bytes.subrange(a, bytes.len() as int)),
        is_char_boundary(bytes.subrange(a, bytes.len() as int), b - a),
{
    let rest = bytes.subrange(a, bytes.len() as int);
    valid_utf8_split(bytes, a);
    if b == bytes.len() {
        is_char_boundary_start_end_of_seq(rest);
    } else {
        is_char_boundary_iff_not_is_continuation_byte(bytes, b);
        is_char_boundary_iff_not_is_continuation_byte(rest, b - a);
    }
}

/// The bytes of a substring taken at boundaries are the bytes between them.
pub proof fn lemma_between_bytes(s: Seq<char>, a: int, b: int)
    requires
        0 <= a <= b <= byte_len(s),
        on_boundary(s, a),
        on_boundary(s, b),
    ensures
        encode_utf8(between(s, a, b)) == encode_utf8(s).subrange(a, b),
{
    let bytes = encode_utf8(s);
    lemma_suffix_boundary(bytes, a, b);
    let rest = bytes.subrange(a, bytes.len() as int);
    valid_utf8_split(rest, b - a);
    assert(rest.subrange(0, b - a) =~= bytes.subrange(a, b));
    decode_utf8_encode_utf8(bytes.subrange(a, b));
}

/// Adjacent substrings taken at boundaries join up.
pub proof fn lemma_between_concat(s: Seq<char>, a: int, b: int, c: int)
    requires
        0 <= a <= b <= c <= byte_len(s),
        on_boundary(s, a),
        on_boundary(s, b),
        on_boundary(s, c),
    ensures
        between(s, a, b) + between(s, b, c) == between(s, a, c),
{
    let bytes = encode_utf8(s);
    let sub = bytes.subrange(a, c);
    lemma_between_bytes(s, a, c);
    if b < c {
        is_char_boundary_iff_not_is_continuation_byte(bytes, b);
        is_char_boundary_iff_not_is_continuation_byte(sub, b - a);
    } else {
        is_char_boundary_start_end_of_seq(sub);
    }
    decode_utf8_split(sub, b - a);
    assert(sub.subrange(0, b - a) =~= bytes.subrange(a, b));
    assert(sub.subrange(b - a, sub.len() as int) =~= bytes.subrange(b, c));
}

/// The whole byte range of `s` is `s`.
pub proof fn lemma_between_all(s: Seq<char>)
    ensures
        between(s, 0, byte_len(s)) == s,
{
    assert(encode_utf8(s).subrange(0, byte_len(s)) =~= encode_utf8(s));
}

/// The substring of `s` between byte offsets `a` and `b`, as an owned string.
pub fn substring(s: &str, a: usize, b: usize) -> (r: String)
    requires
        a <= b <= byte_len(s@),
        on_boundary(s@, a as int),
        on_boundary(s@, b as int),
    ensures
        r@ == between(s@, a as int, b as int),
{
    let ghost bytes = encode_utf8(s@);
    proof {
        lemma_suffix_boundary(bytes, a as int, b as int);
    }
    let (_, rest) = s.split_at(a);
    assert(rest.spec_bytes() =~= bytes.subrange(a as int, bytes.len() as int));
    let (mid, _) = rest.split_at(b - a);
    assert(mid.spec_bytes() =~= bytes.subrange(a as int, b as int));
    mid.to_owned()
}


/// Appends one character (`String::push`).
#[verifier::external_body]
pub fn push_char(s: &mut String, c: char)
    ensures
        final(s)@ == old(s)@.push(c),
{
    s.push(c);
}

/// The ASCII digit for `d`, which is below ten.
pub open spec fn digit(d: nat) -> char {
    ((d + 48) as u8) as char
}

/// The decimal rendering of `n`, without sign or padding (how `{}` shows an
/// unsigned integer).
pub open spec fn decimal(n: nat) -> Seq<char>
    decreases n,
{
    if n < 10 {
        seq![digit(n)]
    } else {
        decimal(n / 10).push(digit(n % 10))
    }
}

fn digit_char(d: u64) -> (c: char)
    requires
        d < 10,
    ensures
        c == digit(d as nat),
{
    ((d as u8) + 48u8) as char
}

/// Renders `n` in decimal.
pub fn decimal_string(n: u64) -> (r: String)
    ensures
        r@ == decimal(n as nat),
    decreases n,
{
    if n < 10 {
        let mut s = String::new();
        push_char(&mut s, digit_char(n));
        s
    } else {
        let mut s = decimal_string(n / 10);
        push_char(&mut s, digit_char(n % 10));
        s
    }
}

/// Whether `c` has the Unicode `White_Space` property (what
/// `char::is_whitespace` and `str::trim` go by).
pub open spec fn is_white_space(c: char) -> bool {
    let u = c as u32;
    ||| 0x09 <= u <= 0x0D
    ||| u == 0x20
    ||| u == 0x85
    ||| u == 0xA0
    ||| u == 0x1680
    ||| 0x2000 <= u <= 0x200A
    ||| u == 0x2028
    ||| u == 0x2029
    ||| u == 0x202F
    ||| u == 0x205F
    ||| u == 0x3000
}

/// Decides [`is_white_space`].
pub fn white_space(c: char) -> (b: bool)
    ensures
        b == is_white_space(c),
{
    let u = c as u32;
    (0x09 <= u && u <= 0x0D) || u == 0x20 || u == 0x85 || u == 0xA0 || u == 0x1680 || (0x2000
        <= u && u <= 0x200A) || u == 0x2028 || u == 0x2029 || u == 0x202F || u == 0x205F || u
        == 0x3000
}

/// An owned copy of the characters `lo..hi` of `s`.
pub fn chars_between(s: &str, lo: usize, hi: usize) -> (r: String)
    requires
        lo <= hi <= s@.len(),
    ensures
        r@ == s@.subrange(lo as int, hi as int),
{
    let mut r = String::new();
    let mut i: usize = lo;
    while i < hi
        invariant
            lo <= i <= hi <= s@.len(),
            r@ == s@.subrange(lo as int, i as int),
        decreases hi - i,
    {
        let c = s.get_char(i);
        push_char(&mut r, c);
        assert(s@.subrange(lo as int, i + 1) =~= s@.subrange(lo as int, i as int).push(c));
        i = i + 1;
    }
    r
}

/// Whether `a` and `b` hold the same characters.
pub fn same_text(a: &str, b: &str) -> (r: bool)
    ensures
        r == (a@ == b@),
{
    let n = a.unicode_len();
    if n != b.unicode_len() {
        return false;
    }
    let mut i: usize = 0;
    while i < n
        invariant
            n == a@.len() == b@.len(),
            i <= n,
            forall|j: int| 0 <= j < i ==> a@[j] == b@[j],
        decreases n - i,
    {
        if a.get_char(i) != b.get_char(i) {
            return false;
        }
        i = i + 1;
    }
    assert(a@ =~= b@);
    true
}

/// `a` followed by `b`.
pub fn join_text(a: &str, b: &str) -> (r: String)
    ensures
        r@ == a@ + b@,
{
    let mut r = a.to_owned();
    r.append(b);
    r
}

} // verus!
