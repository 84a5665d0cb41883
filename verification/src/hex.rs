//! Hex text fixtures: whitespace-tolerant hexadecimal text decoded into bytes.
//!
//! The text is read as characters; white space (in Unicode's sense) is
//! dropped, and what is left is cut into two-byte pieces of its UTF-8 form,
//! each of which must be two hexadecimal digits.

use vstd::prelude::*;
use vstd::utf8::{encode_scalar, encode_utf8};

verus! {

/// Whether `c` has Unicode's White_Space property (what `char::is_whitespace`
/// tests).
pub open spec fn is_white_space(c: char) -> bool {
    let u = c as u32;
    ||| 0x09 <= u <= 0x0d
    ||| u == 0x20
    ||| u == 0x85
    ||| u == 0xa0
    ||| u == 0x1680
    ||| 0x2000 <= u <= 0x200a
    ||| u == 0x2028
    ||| u == 0x2029
    ||| u == 0x202f
    ||| u == 0x205f
    ||| u == 0x3000
}

/// The text without its white space.
pub open spec fn strip_white_space(s: Seq<char>) -> Seq<char>
    decreases s.len(),
{
    if s.len() == 0 {
        Seq::empty()
    } else if is_white_space(s.last()) {
        strip_white_space(s.drop_last())
    } else {
        strip_white_space(s.drop_last()).push(s.last())
    }
}

/// Bytes of a character's UTF-8 form.
pub open spec fn utf8_width(c: char) -> nat {
    encode_scalar(c as u32).len()
}

/// Value of a base-16 digit (either case).
pub open spec fn hex_digit(c: char) -> Option<u8> {
    if '0' <= c <= '9' {
        Some(((c as u32) - 0x30) as u8)
    } else if 'a' <= c <= 'f' {
        Some(((c as u32) - 0x61 + 10) as u8)
    } else if 'A' <= c <= 'F' {
        Some(((c as u32) - 0x41 + 10) as u8)
    } else {
        None
    }
}

/// The byte that a two-character piece denotes: two hex digits, high
/// first.
pub open spec fn pair_value(a: char, b: char) -> Option<u8> {
    match (hex_digit(a), hex_digit(b)) {
        (Some(x), Some(y)) => Some((x * 16 + y) as u8),
        _ => None,
    }
}

/// Outcome of reading the pieces of a text.
pub enum HexScan {
    /// Every piece denotes a byte.
    Bytes(Seq<u8>),
    /// The first piece that denotes no byte.
    Bad(Seq<char>),
    /// A piece boundary falls inside a character.
    Split,
}

/// Reads the two-byte pieces of a text, in order, up to the first that
/// denotes no byte.
pub open spec fn scan_pairs(f: Seq<char>) -> HexScan
    decreases f.len(),
{
    if f.len() == 0 {
        HexScan::Bytes(Seq::empty())
    } else if utf8_width(f[0]) == 1 {
        if f.len() >= 2 && utf8_width(f[1]) == 1 {
            match pair_value(f[0], f[1]) {
                Some(b) => match scan_pairs(f.subrange(2, f.len() as int)) {
                    HexScan::Bytes(rest) => HexScan::Bytes(seq![b] + rest),
                    other => other,
                },
                None => HexScan::Bad(seq![f[0], f[1]]),
            }
        } else {
            HexScan::Split
        }
    } else if utf8_width(f[0]) == 2 {
        HexScan::Bad(seq![f[0]])
    } else {
        HexScan::Split
    }
}

/// Whether reading the text would cut a character in two.
pub open spec fn hex_splits_char(s: Seq<char>) -> bool {
    let f = strip_white_space(s);
    f.len() > 0 && encode_utf8(f).len() % 2 == 0 && scan_pairs(f) is Split
}

/// Why hex text could not be read.
#[derive(Debug, Clone, PartialEq, Eq)]
pub enum HexError {
    /// Nothing but white space.
    Empty,
    /// An odd number of UTF-8 bytes is left once white space is dropped.
    OddLength(usize),
    /// The first piece that is not a hex byte.
    InvalidByte(Vec<char>),
    /// A two-byte piece would end inside a multi-byte character.
    SplitCharacter,
}

/// Appending a character to a text appends its UTF-8 form.
proof fn lemma_encode_push(s: Seq<char>, c: char)
    ensures
        encode_utf8(s.push(c)) == encode_utf8(s) + encode_scalar(c as u32),
    decreases s.len(),
{
    if s.len() == 0 {
        assert(s.push(c).drop_first() =~= Seq::<char>::empty());
        assert(encode_utf8(Seq::<char>::empty()) =~= Seq::<u8>::empty());
        assert(encode_utf8(s.push(c)) =~= encode_scalar(c as u32) + Seq::<u8>::empty());
        assert(encode_utf8(s.push(c)) =~= encode_utf8(s) + encode_scalar(c as u32));
    } else {
        lemma_encode_push(s.drop_first(), c);
        assert(s.push(c).drop_first() =~= s.drop_first().push(c));
        assert(encode_utf8(s.push(c)) =~= encode_utf8(s) + encode_scalar(c as u32));
    }
}

/// A prefix of a text has a UTF-8 form no longer than the text's.
proof fn lemma_encode_prefix(s: Seq<char>, k: int)
    requires
        0 <= k <= s.len(),
    ensures
        encode_utf8(s.take(k)).len() <= encode_utf8(s).len(),
    decreases s.len() - k,
{
    if k < s.len() {
        lemma_encode_prefix(s, k + 1);
        assert(s.take(k + 1) =~= s.take(k).push(s[k]));
        lemma_encode_push(s.take(k), s[k]);
    } else {
        assert(s.take(k) =~= s);
    }
}

/// Dropping white space does not lengthen the UTF-8 form.
proof fn lemma_strip_len(s: Seq<char>)
    ensures
        encode_utf8(strip_white_space(s)).len() <= encode_utf8(s).len(),
    decreases s.len(),
{
    if s.len() > 0 {
        lemma_strip_len(s.drop_last());
        assert(s =~= s.drop_last().push(s.last()));
        lemma_encode_push(s.drop_last(), s.last());
        if !is_white_space(s.last()) {
            lemma_encode_push(strip_white_space(s.drop_last()), s.last());
        }
    }
}

fn is_white_space_char(c: char) -> (r: bool)
    ensures
        r == is_white_space(c),
{
    let u = c as u32;
    (0x09 <= u && u <= 0x0d) || u == 0x20 || u == 0x85 || u == 0xa0 || u == 0x1680 || (0x2000 <= u
        && u <= 0x200a) || u == 0x2028 || u == 0x2029 || u == 0x202f || u == 0x205f || u == 0x3000
}

fn width_of(c: char) -> (r: usize)
    ensures
        r == utf8_width(c),
{
    proof {
        vstd::utf8::char_is_scalar(c);
    }
    let u = c as u32;
    if u <= 0x7f {
        1
    } else if u <= 0x7ff {
        2
    } else if u <= 0xffff {
        3
    } else {
        4
    }
}

fn digit_value(c: char) -> (r: Option<u8>)
    ensures
        r == hex_digit(c),
{
    let u = c as u32;
    if 0x30 <= u && u <= 0x39 {
        Some((u - 0x30) as u8)
    } else if 0x61 <= u && u <= 0x66 {
        Some((u - 0x61 + 10) as u8)
    } else if 0x41 <= u && u <= 0x46 {
        Some((u - 0x41 + 10) as u8)
    } else {
        None
    }
}

fn pair_byte(a: char, b: char) -> (r: Option<u8>)
    ensures
        r == pair_value(a, b),
{
    match (digit_value(a), digit_value(b)) {
        (Some(x), Some(y)) => Some(x * 16 + y),
        _ => None,
    }
}

/// The text's characters without white space, and the length of their UTF-8
/// form.
fn strip_text(contents: &str) -> (r: (Vec<char>, usize))
    ensures
        r.0@ == strip_white_space(contents@),
        r.1 == encode_utf8(strip_white_space(contents@)).len(),
{
    let ghost s = contents@;
    let total = contents.as_bytes().len();
    let mut kept: Vec<char> = Vec::new();
    let mut width: usize = 0;
    let mut i: usize = 0;
    let chars = contents.chars();
    for c in it: chars
        invariant
            s == contents@,
            it.index() <= s.len(),
            it.seq() == s,
            kept@ == strip_white_space(s.take(it.index() as int)),
            width == encode_utf8(kept@).len(),
            total == encode_utf8(s).len(),
    {
        let ghost k = it.index() as int;
        proof {
            assert(s.take(k + 1).drop_last() =~= s.take(k));
            lemma_strip_len(s.take(k + 1));
            assert(s.take(k + 1) =~= s.take(k).push(c));
            lemma_encode_prefix(s, k + 1);
        }
        if !is_white_space_char(c) {
            proof {
                lemma_encode_push(kept@, c);
            }
            let w = width_of(c);
            kept.push(c);
            width = width + w;
        }
    }
    proof {
        assert(s.take(s.len() as int) =~= s);
    }
    (kept, width)
}

/// Outcome of reading pieces, as values.
enum ScanOutcome {
    Bytes(Vec<u8>),
    Bad(Vec<char>),
    Split,
}

/// What `Bytes(prefix)` followed by the outcome of the rest amounts to.
spec fn after(prefix: Seq<u8>, rest: HexScan) -> HexScan {
    match rest {
        HexScan::Bytes(r) => HexScan::Bytes(prefix + r),
        other => other,
    }
}

fn scan_text(f: &Vec<char>) -> (r: ScanOutcome)
    ensures
        match (r, scan_pairs(f@)) {
            (ScanOutcome::Bytes(v), HexScan::Bytes(b)) => v@ == b,
            (ScanOutcome::Bad(v), HexScan::Bad(b)) => v@ == b,
            (ScanOutcome::Split, HexScan::Split) => true,
            _ => false,
        },
{
    let n = f.len();
    let mut out: Vec<u8> = Vec::new();
    let mut i: usize = 0;
    proof {
        assert(f@.subrange(0, n as int) =~= f@);
        match scan_pairs(f@) {
            HexScan::Bytes(r) => {
                assert(out@ + r =~= r);
            },
            _ => {},
        }
    }
    while i < n
        invariant
            n == f@.len(),
            i <= n,
            scan_pairs(f@) == after(out@, scan_pairs(f@.subrange(i as int, n as int))),
        decreases n - i,
    {
        let ghost g = f@.subrange(i as int, n as int);
        let a = f[i];
        assert(g[0] == a);
        let wa = width_of(a);
        if wa == 1 {
            if i + 1 < n && width_of(f[i + 1]) == 1 {
                assert(g[1] == f@[i + 1]);
                match pair_byte(a, f[i + 1]) {
                    Some(b) => {
                        assert(g.subrange(2, g.len() as int) =~= f@.subrange(i + 2, n as int));
                        let ghost before = out@;
                        out.push(b);
                        proof {
                            let rest = scan_pairs(f@.subrange(i + 2, n as int));
                            match rest {
                                HexScan::Bytes(r) => {
                                    assert(before + (seq![b] + r) =~= out@ + r);
                                },
                                _ => {},
                            }
                        }
                        i = i + 2;
                    },
                    None => {
                        let mut bad: Vec<char> = Vec::new();
                        bad.push(a);
                        bad.push(f[i + 1]);
                        assert(bad@ =~= seq![g[0], g[1]]);
                        return ScanOutcome::Bad(bad);
                    },
                }
            } else {
                proof {
                    if i + 1 < n {
                        assert(g[1] == f@[i + 1]);
                    }
                }
                return ScanOutcome::Split;
            }
        } else if wa == 2 {
            let mut bad: Vec<char> = Vec::new();
            bad.push(a);
            assert(bad@ =~= seq![g[0]]);
            return ScanOutcome::Bad(bad);
        } else {
            return ScanOutcome::Split;
        }
    }
    assert(f@.subrange(n as int, n as int) =~= Seq::<char>::empty());
    assert(out@ + Seq::<u8>::empty() =~= out@);
    ScanOutcome::Bytes(out)
}

/// Decodes whitespace-tolerant hex text into bytes: white space is
/// dropped; nothing left, or an odd number of UTF-8 bytes left, is an error;
/// otherwise each two-byte piece must be two hex digits,
/// and the first that is not is reported.
pub fn read_hex_bytes(contents: &str) -> (r: Result<Vec<u8>, HexError>)
    ensures
        ({
            let f = strip_white_space(contents@);
            if f.len() == 0 {
                r == Err::<Vec<u8>, HexError>(HexError::Empty)
            } else if encode_utf8(f).len() % 2 == 1 {
                r matches Err(HexError::OddLength(n)) && n == encode_utf8(f).len()
            } else {
                match scan_pairs(f) {
                    HexScan::Bytes(b) => r matches Ok(v) && v@ == b,
                    HexScan::Bad(p) => r matches Err(HexError::InvalidByte(v)) && v@ == p,
                    HexScan::Split => r == Err::<Vec<u8>, HexError>(HexError::SplitCharacter),
                }
            }
        }),
{
    let (kept, width) = strip_text(contents);
    if kept.len() == 0 {
        return Err(HexError::Empty);
    }
    if width % 2 == 1 {
        return Err(HexError::OddLength(width));
    }
    match scan_text(&kept) {
        ScanOutcome::Bytes(v) => Ok(v),
        ScanOutcome::Bad(p) => Err(HexError::InvalidByte(p)),
        ScanOutcome::Split => Err(HexError::SplitCharacter),
    }
}

/// The lowercase hex digit of a value below 16.
pub open spec fn hex_char(d: u8) -> char {
    if d < 10 {
        (0x30 + d) as char
    } else {
        (0x61 + d - 10) as char
    }
}

/// Bytes written as lowercase hex text, two digits per byte.
pub open spec fn hex_text(b: Seq<u8>) -> Seq<char>
    decreases b.len(),
{
    if b.len() == 0 {
        Seq::empty()
    } else {
        seq![hex_char(b[0] / 16), hex_char(b[0] % 16)] + hex_text(b.drop_first())
    }
}

proof fn lemma_hex_char(d: u8)
    requires
        d < 16,
    ensures
        hex_digit(hex_char(d)) == Some(d),
        !is_white_space(hex_char(d)),
        utf8_width(hex_char(d)) == 1,
{
    let c = hex_char(d);
    if d < 10 {
        assert((0x30 + d) as u32 == c as u32);
    } else {
        assert((0x61 + d - 10) as u32 == c as u32);
    }
}

proof fn lemma_hex_text_chars(b: Seq<u8>)
    ensures
        hex_text(b).len() == 2 * b.len(),
        forall|i: int|
            0 <= i < hex_text(b).len() ==> !is_white_space(#[trigger] hex_text(b)[i]) && utf8_width(
                hex_text(b)[i],
            ) == 1,
    decreases b.len(),
{
    if b.len() > 0 {
        lemma_hex_text_chars(b.drop_first());
        lemma_hex_char(b[0] / 16);
        lemma_hex_char(b[0] % 16);
        let t = hex_text(b);
        let r = hex_text(b.drop_first());
        assert forall|i: int| 0 <= i < t.len() implies !is_white_space(#[trigger] t[i]) && utf8_width(
            t[i],
        ) == 1 by {
            if i >= 2 {
                assert(t[i] == r[i - 2]);
            }
        }
    }
}

/// A text without white space is its own stripped form.
proof fn lemma_strip_no_white_space(s: Seq<char>)
    requires
        forall|i: int| 0 <= i < s.len() ==> !is_white_space(#[trigger] s[i]),
    ensures
        strip_white_space(s) == s,
    decreases s.len(),
{
    if s.len() > 0 {
        lemma_strip_no_white_space(s.drop_last());
        assert(s.drop_last().push(s.last()) =~= s);
    }
}

/// A text of one-byte characters is as long in UTF-8 as in characters.
proof fn lemma_encode_single_bytes(s: Seq<char>)
    requires
        forall|i: int| 0 <= i < s.len() ==> utf8_width(#[trigger] s[i]) == 1,
    ensures
        encode_utf8(s).len() == s.len(),
    decreases s.len(),
{
    if s.len() > 0 {
        assert(utf8_width(s[0]) == 1);
        assert forall|i: int| 0 <= i < s.drop_first().len() implies utf8_width(
            #[trigger] s.drop_first()[i],
        ) == 1 by {
            assert(s.drop_first()[i] == s[i + 1]);
        }
        lemma_encode_single_bytes(s.drop_first());
    }
}

proof fn lemma_scan_hex_text(b: Seq<u8>)
    ensures
        scan_pairs(hex_text(b)) == HexScan::Bytes(b),
    decreases b.len(),
{
    if b.len() == 0 {
        assert(scan_pairs(hex_text(b)) == HexScan::Bytes(Seq::<u8>::empty()));
        assert(b =~= Seq::<u8>::empty());
    } else {
        let t = hex_text(b);
        let hi = b[0] / 16;
        let lo = b[0] % 16;
        lemma_hex_char(hi);
        lemma_hex_char(lo);
        lemma_scan_hex_text(b.drop_first());
        assert(t.subrange(2, t.len() as int) =~= hex_text(b.drop_first()));
        assert(pair_value(t[0], t[1]) == Some(b[0]));
        assert(seq![b[0]] + b.drop_first() =~= b);
    }
}

/// Bytes written as lowercase hex text read back as the same bytes: the
/// text holds no white space, cuts no character, has an even length, and
/// every piece denotes the byte it was written for.
pub proof fn lemma_hex_roundtrip(b: Seq<u8>)
    requires
        b.len() > 0,
    ensures
        strip_white_space(hex_text(b)) == hex_text(b),
        hex_text(b).len() > 0,
        encode_utf8(hex_text(b)).len() == 2 * b.len(),
        !hex_splits_char(hex_text(b)),
        scan_pairs(hex_text(b)) == HexScan::Bytes(b),
{
    lemma_hex_text_chars(b);
    lemma_strip_no_white_space(hex_text(b));
    lemma_encode_single_bytes(hex_text(b));
    lemma_scan_hex_text(b);
}


/// Hex text of bytes with white space inserted anywhere reads back as those
/// bytes: any text whose characters other than white space are, in order,
/// the hex text of `b` is accepted, and every piece denotes the byte it was
/// written for.
pub proof fn lemma_hex_roundtrip_with_white_space(s: Seq<char>, b: Seq<u8>)
    requires
        b.len() > 0,
        strip_white_space(s) == hex_text(b),
    ensures
        !hex_splits_char(s),
        strip_white_space(s).len() > 0,
        encode_utf8(strip_white_space(s)).len() % 2 == 0,
        scan_pairs(strip_white_space(s)) == HexScan::Bytes(b),
{
    lemma_hex_roundtrip(b);
}

} // verus!
