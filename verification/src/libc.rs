//! Decisions of the C standard library functions that the Doom frontend needs:
//! streams, seeking, formatted output into a buffer, and the bookkeeping of
//! heap allocations.
use vstd::prelude::*;
use std::collections::BTreeMap;
use crate::tarfs::SeekMode;

verus! {

/// The `FILE` handle of standard output.
pub const STDOUT: usize = 0;

/// The `FILE` handle of standard error.
pub const STDERR: usize = 1;

/// The handle is standard output or standard error (i.e., the terminal).
pub fn is_standard_stream(stream: usize) -> (r: bool)
    ensures
        r == (stream == STDOUT || stream == STDERR),
{
    stream == STDOUT || stream == STDERR
}

/// Flush the output buffer of a file. Only standard output and standard error
/// can be flushed, which does nothing; for them 0 is returned, -1 otherwise.
pub fn fflush(stream: usize) -> (r: i32)
    ensures
        r == if stream == STDOUT || stream == STDERR { 0i32 } else { -1i32 },
{
    if !is_standard_stream(stream) {
        return -1;
    }
    0
}

/// The seek mode of a C `origin`: 0 is the start, 1 the current position, 2
/// the end of the file; any other value is invalid.
pub fn seek_mode_from_origin(origin: i32) -> (r: Option<SeekMode>)
    ensures
        r == if origin == 0 {
            Some(SeekMode::Start)
        } else if origin == 1 {
            Some(SeekMode::Current)
        } else if origin == 2 {
            Some(SeekMode::End)
        } else {
            None::<SeekMode>
        },
{
    match origin {
        0 => Some(SeekMode::Start),
        1 => Some(SeekMode::Current),
        2 => Some(SeekMode::End),
        _ => None,
    }
}

/// Only read access to files is supported: the mode must be "r" or "rb".
pub fn is_read_mode(mode: &str) -> (r: bool)
    ensures
        r == (mode@ == "r"@ || mode@ == "rb"@),
{
    crate::logger::str_equals(mode, "r") || crate::logger::str_equals(mode, "rb")
}

/// The text starts with the characters of `prefix`.
pub open spec fn starts_with(s: Seq<u8>, prefix: Seq<u8>) -> bool {
    prefix.len() <= s.len() && s.subrange(0, prefix.len() as int) == prefix
}

/// The lump names that the Doom shareware WAD asks for with a precision the
/// formatter does not support get their missing zeros: a '0' is inserted
/// after "STCFN", and after "WIA" at positions 4 and 6.
pub open spec fn fixed_lump_name(s: Seq<u8>) -> Seq<u8> {
    if starts_with(s, seq![83u8, 84u8, 67u8, 70u8, 78u8]) {
        s.insert(5, 48u8)
    } else if starts_with(s, seq![87u8, 73u8, 65u8]) {
        s.insert(4, 48u8).insert(6, 48u8)
    } else {
        s
    }
}

fn bytes_start_with(s: &Vec<u8>, prefix: &[u8]) -> (r: bool)
    ensures
        r == starts_with(s@, prefix@),
{
    if prefix.len() > s.len() {
        return false;
    }
    let mut i: usize = 0;
    while i < prefix.len()
        invariant
            prefix@.len() <= s@.len(),
            i <= prefix@.len(),
            forall|j: int| 0 <= j < i ==> s@[j] == prefix@[j],
        decreases prefix@.len() - i,
    {
        if s[i] != prefix[i] {
            return false;
        }
        i = i + 1;
    }
    assert(s@.subrange(0, prefix@.len() as int) =~= prefix@);
    true
}

/// Position `i` of UTF-8 text is the end or the start of a character, so
/// that a character can be inserted there.
pub open spec fn is_boundary(s: Seq<u8>, i: int) -> bool {
    i == s.len() || (0 <= i < s.len() && (s[i] < 0x80 || s[i] >= 0xc0))
}

/// Apply the lump name fix to formatted output (UTF-8 text). The insertions
/// must fall on character boundaries.
pub fn fix_lump_name(s: Vec<u8>) -> (r: Vec<u8>)
    requires
        starts_with(s@, seq![83u8, 84u8, 67u8, 70u8, 78u8]) ==> is_boundary(s@, 5),
        starts_with(s@, seq![87u8, 73u8, 65u8]) && !starts_with(s@, seq![83u8, 84u8, 67u8, 70u8, 78u8])
            ==> s@.len() >= 5 && is_boundary(s@, 4) && is_boundary(s@, 5),
    ensures
        r@ == fixed_lump_name(s@),
{
    let mut s = s;
    let stcfn: [u8; 5] = [83u8, 84u8, 67u8, 70u8, 78u8];
    let wia: [u8; 3] = [87u8, 73u8, 65u8];
    assert(stcfn@ =~= seq![83u8, 84u8, 67u8, 70u8, 78u8]);
    assert(wia@ =~= seq![87u8, 73u8, 65u8]);
    if bytes_start_with(&s, stcfn.as_slice()) {
        s.insert(5, 48u8);
    } else if bytes_start_with(&s, wia.as_slice()) {
        s.insert(4, 48u8);
        s.insert(6, 48u8);
    }
    s
}

/// Number of bytes of formatted output of length `len` that fit in a buffer
/// of `bufsz` bytes, leaving room for the terminating NUL.
pub fn copy_len(bufsz: usize, len: usize) -> (r: usize)
    requires
        bufsz >= 1,
    ensures
        r == if bufsz - 1 < len { (bufsz - 1) as usize } else { len },
{
    if bufsz - 1 < len {
        bufsz - 1
    } else {
        len
    }
}

/// Number of bytes copied when a block of `old_size` bytes is reallocated to
/// `new_size` bytes: the old contents, truncated to the new size.
pub fn realloc_copy_size(old_size: usize, new_size: usize) -> (r: usize)
    ensures
        r == if old_size < new_size { old_size } else { new_size },
{
    if old_size < new_size {
        old_size
    } else {
        new_size
    }
}

/// The sizes of all live heap allocations, by address. The C `free()` only
/// gets the address, but freeing needs the size too.
pub struct AllocationTable {
    sizes: BTreeMap<u64, usize>,
}

impl AllocationTable {
    /// The live allocations: address to size.
    pub closed spec fn allocations(&self) -> Map<u64, usize> {
        self.sizes@
    }

    /// No allocations.
    pub fn new() -> (r: AllocationTable)
        ensures
            r.allocations() == Map::<u64, usize>::empty(),
    {
        AllocationTable { sizes: BTreeMap::new() }
    }

    /// Record an allocation of `size` bytes at `ptr` (malloc).
    pub fn record(&mut self, ptr: u64, size: usize)
        ensures
            final(self).allocations() == old(self).allocations().insert(ptr, size),
    {
        broadcast use vstd::std_specs::btree::group_btree_axioms;
        broadcast use vstd::laws_cmp::group_laws_cmp;
        self.sizes.insert(ptr, size);
    }

    /// The size of the allocation at `ptr`, if there is one (realloc).
    pub fn size_of(&self, ptr: u64) -> (r: Option<usize>)
        ensures
            match r {
                Some(s) => self.allocations().contains_key(ptr) && self.allocations()[ptr] == s,
                None => !self.allocations().contains_key(ptr),
            },
    {
        broadcast use vstd::std_specs::btree::group_btree_axioms;
        broadcast use vstd::laws_cmp::group_laws_cmp;
        match self.sizes.get(&ptr) {
            Some(s) => Some(*s),
            None => None,
        }
    }

    /// Forget the allocation at `ptr` and hand back its size (free); `None`
    /// for an address that was not allocated.
    pub fn release(&mut self, ptr: u64) -> (r: Option<usize>)
        ensures
            final(self).allocations() == old(self).allocations().remove(ptr),
            match r {
                Some(s) => old(self).allocations().contains_key(ptr) && old(self).allocations()[ptr] == s,
                None => !old(self).allocations().contains_key(ptr),
            },
    {
        broadcast use vstd::std_specs::btree::group_btree_axioms;
        broadcast use vstd::laws_cmp::group_laws_cmp;
        self.sizes.remove(&ptr)
    }
}

/// Unicode White_Space: the characters that `str::trim_start` removes.
pub open spec fn is_white_space(c: char) -> bool {
    ||| '\t' <= c <= '\r'
    ||| c == ' '
    ||| c == '\u{85}'
    ||| c == '\u{a0}'
    ||| c == '\u{1680}'
    ||| '\u{2000}' <= c <= '\u{200a}'
    ||| c == '\u{2028}'
    ||| c == '\u{2029}'
    ||| c == '\u{202f}'
    ||| c == '\u{205f}'
    ||| c == '\u{3000}'
}

/// The text without its leading white space.
pub open spec fn trim_start(s: Seq<char>) -> Seq<char>
    decreases s.len(),
{
    if s.len() > 0 && is_white_space(s[0]) {
        trim_start(s.drop_first())
    } else {
        s
    }
}

/// A decimal digit.
pub open spec fn is_digit_char(c: char) -> bool {
    '0' <= c <= '9'
}

/// A character that may belong to an integer: a digit or a sign.
pub open spec fn is_number_char(c: char) -> bool {
    is_digit_char(c) || c == '+' || c == '-'
}

/// The longest prefix made of digits and signs.
pub open spec fn number_prefix(s: Seq<char>) -> Seq<char>
    decreases s.len(),
{
    if s.len() > 0 && is_number_char(s[0]) {
        seq![s[0]] + number_prefix(s.drop_first())
    } else {
        Seq::empty()
    }
}

/// The value of a sequence of decimal digits.
pub open spec fn decimal_value(digits: Seq<char>) -> int
    decreases digits.len(),
{
    if digits.len() == 0 {
        0
    } else {
        decimal_value(digits.drop_last()) * 10 + (digits.last() as int - '0' as int)
    }
}

/// Every character is a decimal digit.
pub open spec fn all_digits(d: Seq<char>) -> bool {
    forall|i: int| 0 <= i < d.len() ==> is_digit_char(#[trigger] d[i])
}

/// The text starts with a sign.
pub open spec fn has_sign(t: Seq<char>) -> bool {
    t.len() > 0 && (t[0] == '+' || t[0] == '-')
}

/// The text without its leading sign, if it has one.
pub open spec fn unsigned_part(t: Seq<char>) -> Seq<char> {
    if has_sign(t) { t.drop_first() } else { t }
}

/// What `i32::from_str` accepts: an optional sign followed by at least one
/// digit, with a value in the range of `i32`; `None` for anything else.
pub open spec fn parse_i32(t: Seq<char>) -> Option<int> {
    let body = unsigned_part(t);
    let value = if has_sign(t) && t[0] == '-' { -decimal_value(body) } else { decimal_value(body) };
    if body.len() > 0 && all_digits(body) && i32::MIN <= value <= i32::MAX {
        Some(value)
    } else {
        None
    }
}

/// The C `atoi`: leading white space is skipped, the digits and signs that
/// follow are parsed as an `i32`; where that fails the result is 0.
pub open spec fn atoi_value(s: Seq<char>) -> i32 {
    match parse_i32(number_prefix(trim_start(s))) {
        Some(v) => v as i32,
        None => 0,
    }
}

fn white_space(c: char) -> (r: bool)
    ensures
        r == is_white_space(c),
{
    ('\t' <= c && c <= '\r') || c == ' ' || c == '\u{85}' || c == '\u{a0}' || c == '\u{1680}'
        || ('\u{2000}' <= c && c <= '\u{200a}') || c == '\u{2028}' || c == '\u{2029}'
        || c == '\u{202f}' || c == '\u{205f}' || c == '\u{3000}'
}

/// Parse an integer value from a string, as the C `atoi` does.
pub fn atoi(s: &str) -> (r: i32)
    ensures
        r == atoi_value(s@),
{
    let n = s.unicode_len();
    let ghost text = s@;
    // Skip the leading white space.
    let mut start: usize = 0;
    assert(text.skip(0) =~= text);
    while start < n && white_space(s.get_char(start))
        invariant
            n == text.len(),
            text == s@,
            start <= n,
            trim_start(text.skip(start as int)) == trim_start(text),
        decreases n - start,
    {
        assert(text.skip(start as int).drop_first() =~= text.skip(start + 1));
        start = start + 1;
    }
    proof {
        if start == n {
            assert(text.skip(start as int) =~= Seq::<char>::empty());
        }
    }
    assert(trim_start(text) == text.skip(start as int));
    // Take the digits and signs that follow.
    let mut end: usize = start;
    while end < n && (s.get_char(end) == '+' || s.get_char(end) == '-' || ('0' <= s.get_char(end) && s.get_char(end) <= '9'))
        invariant
            n == text.len(),
            text == s@,
            start <= end <= n,
            number_prefix(text.skip(start as int)) == text.subrange(start as int, end as int) + number_prefix(text.skip(end as int)),
        decreases n - end,
    {
        assert(text.skip(end as int).drop_first() =~= text.skip(end + 1));
        assert(text.subrange(start as int, end + 1) =~= text.subrange(start as int, end as int) + seq![text[end as int]]);
        end = end + 1;
    }
    proof {
        if end == n {
            assert(text.skip(end as int) =~= Seq::<char>::empty());
        }
        assert(text.subrange(start as int, end as int) + Seq::<char>::empty() =~= text.subrange(start as int, end as int));
    }
    let ghost t = text.subrange(start as int, end as int);
    assert(number_prefix(trim_start(text)) == t);
    if start == end {
        return 0;
    }
    let first = s.get_char(start);
    assert(first == t[0]);
    let negative = first == '-';
    let body_start: usize = if first == '+' || first == '-' { start + 1 } else { start };
    let ghost body = text.subrange(body_start as int, end as int);
    assert(body =~= unsigned_part(t));
    if body_start == end {
        return 0;
    }
    // Accumulate the digits, saturating just above the magnitude of i32::MIN.
    let mut acc: i64 = 0;
    let mut i: usize = body_start;
    while i < end
        invariant
            n == text.len(),
            text == s@,
            body_start <= i <= end <= n,
            body == text.subrange(body_start as int, end as int),
            number_prefix(trim_start(text)) == t,
            body == unsigned_part(t),
            t.len() > 0,
            forall|j: int| body_start <= j < i ==> is_digit_char(#[trigger] text[j]),
            decimal_value(text.subrange(body_start as int, i as int)) >= 0,
            decimal_value(text.subrange(body_start as int, i as int)) <= 2147483648 ==> acc == decimal_value(text.subrange(body_start as int, i as int)),
            decimal_value(text.subrange(body_start as int, i as int)) > 2147483648 ==> acc == 2147483649,
        decreases end - i,
    {
        let c = s.get_char(i);
        if !('0' <= c && c <= '9') {
            assert(!is_digit_char(body[i - body_start]));
            return 0;
        }
        let ghost prev = text.subrange(body_start as int, i as int);
        let ghost next = text.subrange(body_start as int, i + 1);
        assert(next.drop_last() =~= prev);
        assert(decimal_value(next) == decimal_value(prev) * 10 + (c as int - '0' as int));
        let d = (c as u32 - '0' as u32) as i64;
        if acc <= 2147483648 {
            let v = acc * 10 + d;
            if v > 2147483648 {
                acc = 2147483649;
            } else {
                acc = v;
            }
        }
        i = i + 1;
    }
    assert(text.subrange(body_start as int, i as int) == body);
    assert forall|j: int| 0 <= j < body.len() implies is_digit_char(#[trigger] body[j]) by {
        assert(body[j] == text[body_start + j]);
    }
    if negative {
        if acc <= 2147483648 {
            (-acc) as i32
        } else {
            0
        }
    } else {
        if acc <= 2147483647 {
            acc as i32
        } else {
            0
        }
    }
}

} // verus!
