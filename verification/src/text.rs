//! Extraction of the UTF-16LE text embedded in boot-option blobs.
//!
//! Descriptions and media file paths are stored as little-endian 16-bit code
//! units ending at a null unit.  The decoded text targets an ASCII console:
//! an ASCII unit keeps its character, and everything else — a non-ASCII
//! unit, an unpaired surrogate, or a whole surrogate pair — shows as a
//! single space.

use vstd::prelude::*;
use crate::wire::le16_at;

verus! {

/// The 16-bit code units stored little-endian in `b`; a trailing odd byte
/// belongs to no unit.
pub open spec fn units_of(b: Seq<u8>) -> Seq<u16> {
    Seq::new(b.len() / 2, |i: int| le16_at(b, 2 * i))
}

/// Index of the first null code unit, if there is one.
pub open spec fn find_null(us: Seq<u16>) -> Option<int>
    decreases us.len(),
{
    if us.len() == 0 {
        None
    } else if us[0] == 0 {
        Some(0)
    } else {
        match find_null(us.drop_first()) {
            Some(k) => Some(k + 1),
            None => None,
        }
    }
}

/// `find_null` names the first null unit and nothing earlier.
pub proof fn lemma_find_null_first(us: Seq<u16>)
    ensures
        match find_null(us) {
            Some(k) => 0 <= k < us.len() && us[k] == 0 && (forall|j: int|
                0 <= j < k ==> us[j] != 0),
            None => forall|j: int| 0 <= j < us.len() ==> us[j] != 0,
        },
    decreases us.len(),
{
    if us.len() > 0 && us[0] != 0 {
        lemma_find_null_first(us.drop_first());
        assert(forall|j: int| 1 <= j < us.len() ==> us.drop_first()[j - 1] == #[trigger] us[j]);
    }
}

/// A position with a null unit and none before it is what `find_null` finds.
pub proof fn lemma_find_null_at(us: Seq<u16>, k: int)
    requires
        0 <= k < us.len(),
        us[k] == 0,
        forall|j: int| 0 <= j < k ==> us[j] != 0,
    ensures
        find_null(us) == Some(k),
    decreases us.len(),
{
    if us[0] != 0 {
        assert(forall|j: int|
            0 <= j < us.drop_first().len() ==> #[trigger] us.drop_first()[j] == us[j + 1]);
        lemma_find_null_at(us.drop_first(), k - 1);
    }
}

/// Without any null unit, `find_null` finds nothing.
pub proof fn lemma_find_null_none(us: Seq<u16>)
    requires
        forall|j: int| 0 <= j < us.len() ==> us[j] != 0,
    ensures
        find_null(us) == None::<int>,
    decreases us.len(),
{
    if us.len() > 0 {
        assert(forall|j: int|
            0 <= j < us.drop_first().len() ==> #[trigger] us.drop_first()[j] == us[j + 1]);
        lemma_find_null_none(us.drop_first());
    }
}

pub open spec fn is_high_surrogate(u: u16) -> bool {
    0xD800 <= u <= 0xDBFF
}

pub open spec fn is_low_surrogate(u: u16) -> bool {
    0xDC00 <= u <= 0xDFFF
}

/// The characters shown for a sequence of code units: an ASCII unit keeps
/// its character, a surrogate pair becomes one space, anything else one
/// space per unit.
pub open spec fn display_chars(us: Seq<u16>) -> Seq<char>
    decreases us.len(),
{
    if us.len() == 0 {
        Seq::empty()
    } else if us[0] < 0x80 {
        seq![us[0] as u8 as char] + display_chars(us.skip(1))
    } else if is_high_surrogate(us[0]) && us.len() >= 2 && is_low_surrogate(us[1]) {
        seq![' '] + display_chars(us.skip(2))
    } else {
        seq![' '] + display_chars(us.skip(1))
    }
}

/// Displayed text holds only ASCII characters, and, when no source unit is
/// null, no null character either.
pub proof fn lemma_display_chars_ascii(us: Seq<u16>)
    ensures
        forall|i: int| 0 <= i < display_chars(us).len() ==> 0 <= (#[trigger] display_chars(us)[i]
            as int) < 128,
        (forall|j: int| 0 <= j < us.len() ==> us[j] != 0) ==> forall|i: int|
            0 <= i < display_chars(us).len() ==> 0 < (#[trigger] display_chars(us)[i] as int),
    decreases us.len(),
{
    if us.len() == 0 {
    } else {
        let step: int = if us[0] >= 0x80 && is_high_surrogate(us[0]) && us.len() >= 2
            && is_low_surrogate(us[1]) {
            2
        } else {
            1
        };
        let c: char = if us[0] < 0x80 {
            us[0] as u8 as char
        } else {
            ' '
        };
        lemma_display_chars_ascii(us.skip(step));
        assert(forall|j: int|
            0 <= j < us.skip(step).len() ==> #[trigger] us.skip(step)[j] == us[j + step]);
        assert(display_chars(us) == seq![c] + display_chars(us.skip(step)));
        assert(0 <= (c as int) < 128 && (us[0] != 0 ==> 0 < c as int));
        assert(forall|i: int|
            1 <= i < display_chars(us).len() ==> #[trigger] display_chars(us)[i] == display_chars(
                us.skip(step),
            )[i - 1]);
    }
}

/// Code units taken by the scan that looks for the terminator: those before
/// the first null unit, or every whole unit when no null is found.
pub open spec fn scanned_units(b: Seq<u8>) -> Seq<u16> {
    match find_null(units_of(b)) {
        Some(k) => units_of(b).take(k),
        None => units_of(b),
    }
}

/// The text decoded from a null-terminated UTF-16LE region.
pub open spec fn c16_text(b: Seq<u8>) -> Seq<char> {
    display_chars(scanned_units(b))
}

/// Bytes consumed by the scan: everything up to and including the
/// terminator, or two more than the last whole unit when none is found.
pub open spec fn c16_consumed(b: Seq<u8>) -> int {
    match find_null(units_of(b)) {
        Some(k) => 2 * k + 2,
        None => 2 * (b.len() / 2) + 2int,
    }
}

/// Relies on String::push: appends one character at the end of the string.
#[verifier::external_body]
fn push_char(s: &mut String, c: char)
    ensures
        final(s)@ == old(s)@.push(c),
{
    s.push(c)
}

/// Unit index of the first null code unit of `buf`, if any.
pub(crate) fn find_null_unit(buf: &[u8]) -> (r: Option<usize>)
    ensures
        match r {
            Some(k) => find_null(units_of(buf@)) == Some(k as int) && k < buf@.len() / 2,
            None => find_null(units_of(buf@)) == None::<int>,
        },
{
    let us = Ghost(units_of(buf@));
    let n = buf.len();
    let t = n / 2;
    let mut p: usize = 0;
    while p < t
        invariant
            n == buf@.len(),
            t == buf@.len() / 2,
            p <= t,
            p <= us@.len(),
            us@ == units_of(buf@),
            forall|j: int| 0 <= j < p ==> us@[j] != 0,
        decreases t - p,
    {
        let u = crate::wire::read_le16(buf, p + p);
        assert(u == us@[p as int]);
        if u == 0 {
            proof {
                lemma_find_null_at(us@, p as int);
            }
            return Some(p);
        }
        p = p + 1;
    }
    proof {
        assert(p == us@.len());
        lemma_find_null_none(us@);
    }
    None
}

/// The text shown for the first `t` code units of `buf`.
pub(crate) fn decode_units(buf: &[u8], t: usize) -> (r: String)
    requires
        2 * t <= buf@.len(),
    ensures
        r@ == display_chars(units_of(buf@).take(t as int)),
{
    let s = Ghost(units_of(buf@).take(t as int));
    let n = buf.len();
    let mut out = String::new();
    let mut p: usize = 0;
    proof {
        assert(s@.skip(0) =~= s@);
        assert(Seq::<char>::empty() + display_chars(s@) =~= display_chars(s@));
    }
    while p < t
        invariant
            0 <= p <= t,
            2 * t <= n == buf@.len(),
            s@ == units_of(buf@).take(t as int),
            out@ + display_chars(s@.skip(p as int)) == display_chars(s@),
        decreases t - p,
    {
        let u = crate::wire::read_le16(buf, p + p);
        let ghost rest = s@.skip(p as int);
        assert(rest[0] == u);
        if u < 0x80 {
            push_char(&mut out, u as u8 as char);
            proof {
                assert(rest.skip(1) =~= s@.skip(p + 1));
                assert(out@ + display_chars(s@.skip(p + 1)) =~= display_chars(s@));
            }
            p = p + 1;
        } else {
            let mut step: usize = 1;
            if 0xD800 <= u && u <= 0xDBFF && p + 1 < t {
                let u2 = crate::wire::read_le16(buf, p + p + 2);
                assert(rest[1] == u2);
                if 0xDC00 <= u2 && u2 <= 0xDFFF {
                    step = 2;
                }
            }
            push_char(&mut out, ' ');
            proof {
                if step == 2 {
                    assert(rest.skip(2) =~= s@.skip(p + 2));
                } else {
                    assert(!(is_high_surrogate(rest[0]) && rest.len() >= 2 && is_low_surrogate(
                        rest[1],
                    )));
                    assert(rest.skip(1) =~= s@.skip(p + 1));
                }
                assert(out@ + display_chars(s@.skip(p + step as int)) =~= display_chars(s@));
            }
            p = p + step;
        }
    }
    proof {
        assert(s@.skip(t as int) =~= Seq::<u16>::empty());
        assert(out@ =~= display_chars(s@));
    }
    out
}

/// Decodes the null-terminated UTF-16LE text at the start of `buf`.
///
/// Returns the text shown for the units before the first null unit (or for
/// every whole unit when no null is found) together with the number of bytes
/// the scan consumed, terminator included.
pub fn char16_to_string(buf: &[u8]) -> (r: (String, usize))
    requires
        buf@.len() + 2 <= usize::MAX,
    ensures
        r.0@ == c16_text(buf@),
        r.1 == c16_consumed(buf@),
{
    match find_null_unit(buf) {
        Some(k) => {
            proof {
                lemma_find_null_first(units_of(buf@));
            }
            let s = decode_units(buf, k);
            (s, 2 * k + 2)
        },
        None => {
            let t = buf.len() / 2;
            let s = decode_units(buf, t);
            proof {
                assert(units_of(buf@).take(t as int) =~= units_of(buf@));
            }
            (s, 2 * t + 2)
        },
    }
}

} // verus!
