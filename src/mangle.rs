//! Mangling of names into C identifiers: ASCII letters and digits stay,
//! every other byte of the UTF-8 encoding becomes `_` and two hex digits.
use vstd::prelude::*;
use vstd::utf8::encode_utf8;
use crate::text::push_char;

verus! {

pub open spec fn is_alnum(b: u8) -> bool {
    (48 <= b && b <= 57) || (65 <= b && b <= 90) || (97 <= b && b <= 122)
}

/// The lower-case hex digit of `n < 16`.
pub open spec fn hex_char(n: int) -> char {
    if n < 10 {
        (48 + n) as char
    } else {
        (87 + n) as char
    }
}

/// The mangling of one byte; `high_first` gives the order of the two hex
/// digits of an escaped byte.
pub open spec fn mangle_byte(b: u8, high_first: bool) -> Seq<char> {
    if is_alnum(b) {
        seq![b as char]
    } else if high_first {
        seq!['_', hex_char(b as int / 16), hex_char(b as int % 16)]
    } else {
        seq!['_', hex_char(b as int % 16), hex_char(b as int / 16)]
    }
}

/// The mangling of a byte string.
pub open spec fn mangle_bytes(bs: Seq<u8>, high_first: bool) -> Seq<char>
    decreases bs.len(),
{
    if bs.len() == 0 {
        Seq::empty()
    } else {
        mangle_bytes(bs.drop_last(), high_first) + mangle_byte(bs.last(), high_first)
    }
}

/// The mangling of a text, high hex digit first.
pub open spec fn mangled_text(s: Seq<char>) -> Seq<char> {
    mangle_bytes(encode_utf8(s), true)
}

fn hex_digit(n: u8) -> (c: char)
    requires
        n < 16,
    ensures
        c == hex_char(n as int),
{
    if n < 10 {
        ((48 + n) as u8) as char
    } else {
        ((87 + n) as u8) as char
    }
}

/// Appends the mangling of `bytes` to `out`.
pub(crate) fn mangle_bytes_to(bytes: &[u8], high_first: bool, out: &mut String)
    ensures
        final(out)@ == old(out)@ + mangle_bytes(bytes@, high_first),
{
    let mut i: usize = 0;
    let ghost start = out@;
    assert(bytes@.subrange(0, 0) =~= Seq::<u8>::empty());
    assert(start + Seq::<char>::empty() =~= start);
    while i < bytes.len()
        invariant
            i <= bytes.len(),
            out@ == start + mangle_bytes(bytes@.subrange(0, i as int), high_first),
        decreases bytes.len() - i,
    {
        let b = bytes[i];
        let ghost before = out@;
        if (48 <= b && b <= 57) || (65 <= b && b <= 90) || (97 <= b && b <= 122) {
            push_char(out, b as char);
        } else {
            push_char(out, '_');
            if high_first {
                push_char(out, hex_digit(b / 16));
                push_char(out, hex_digit(b % 16));
            } else {
                push_char(out, hex_digit(b % 16));
                push_char(out, hex_digit(b / 16));
            }
        }
        assert(out@ =~= before + mangle_byte(b, high_first));
        assert(bytes@.subrange(0, i + 1).drop_last() =~= bytes@.subrange(0, i as int));
        assert(out@ =~= start + mangle_bytes(bytes@.subrange(0, i + 1), high_first));
        i = i + 1;
    }
    assert(bytes@.subrange(0, i as int) =~= bytes@);
}

/// A value with a mangled C name.
pub trait Mangle {
    spec fn mangled(&self) -> Seq<char>;

    /// Appends the mangled name to `out`.
    fn mangle_to(&self, out: &mut String)
        ensures
            final(out)@ == old(out)@ + self.mangled(),
    ;

    /// The mangled name.
    fn mangle(&self) -> (r: String)
        ensures
            r@ == self.mangled(),
    {
        let mut buf = String::new();
        self.mangle_to(&mut buf);
        assert(Seq::<char>::empty() + self.mangled() =~= self.mangled());
        buf
    }
}

impl<'a> Mangle for &'a str {
    open spec fn mangled(&self) -> Seq<char> {
        mangled_text((*self)@)
    }

    fn mangle_to(&self, out: &mut String) {
        mangle_bytes_to(self.as_bytes(), true, out);
    }
}

} // verus!
