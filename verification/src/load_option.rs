//! Splitting one boot-option blob into its parts, and putting them back.
//!
//! A blob starts with four attribute bytes and a two-byte path-list length,
//! followed by a null-terminated UTF-16LE description, the device-path
//! region of exactly the declared length, and any remaining optional data.

use vstd::prelude::*;
use vstd::slice::{slice_subrange, slice_to_vec};
use vstd::string::StrSliceExecFns;
use crate::error::BootError;
use crate::text::{
    decode_units,
    display_chars,
    find_null,
    find_null_unit,
    lemma_display_chars_ascii,
    lemma_find_null_first,
    units_of,
};
use crate::wire::{
    le16_at,
    le16_bytes,
    le32_at,
    le32_bytes,
    lemma_le16_at_bytes,
    lemma_le32_at_bytes,
    read_le16,
    read_le32,
    write_le16,
    write_le32,
};

verus! {

/// Mathematical content of a decoded load option.
pub ghost struct LoadOptionModel {
    pub attributes: u32,
    pub file_path_list_length: u16,
    pub description: Seq<char>,
    pub device_path: Seq<u8>,
    pub optional_data: Seq<u8>,
}

impl LoadOptionModel {
    /// The structural invariant every decoded load option satisfies: the
    /// device-path region is exactly as long as the declared length, and the
    /// description shows only non-null ASCII characters.
    pub open spec fn wf(self) -> bool {
        &&& self.device_path.len() == self.file_path_list_length
        &&& forall|i: int|
            0 <= i < self.description.len() ==> 0 < (#[trigger] self.description[i] as int) < 128
    }
}

/// A decoded load option.
#[derive(Debug)]
pub struct LoadOption {
    /// Four bytes of bit flags, kept opaque.
    pub attributes: u32,
    /// Declared byte length of the device-path region.
    pub file_path_list_length: u16,
    /// Text shown for the null-terminated description.
    pub description: String,
    /// The device-path region, exactly `file_path_list_length` bytes.
    pub device_path_bytes: Vec<u8>,
    /// Whatever follows the device-path region, uninterpreted.
    pub optional_data: Vec<u8>,
}

impl View for LoadOption {
    type V = LoadOptionModel;

    open spec fn view(&self) -> LoadOptionModel {
        LoadOptionModel {
            attributes: self.attributes,
            file_path_list_length: self.file_path_list_length,
            description: self.description@,
            device_path: self.device_path_bytes@,
            optional_data: self.optional_data@,
        }
    }
}

/// What decoding a blob yields: its parts, or the first fault found.
pub open spec fn load_option_spec(b: Seq<u8>) -> Result<LoadOptionModel, BootError> {
    if b.len() < 6 {
        Err(BootError::TruncatedHeader)
    } else {
        let tail = b.skip(6);
        match find_null(units_of(tail)) {
            None => Err(BootError::UnterminatedDescription),
            Some(k) => {
                let dp_start = 6 + 2 * k + 2;
                let fpll = le16_at(b, 4) as int;
                if dp_start + fpll > b.len() {
                    Err(BootError::PathListSizeMismatch)
                } else {
                    Ok(
                        LoadOptionModel {
                            attributes: le32_at(b, 0),
                            file_path_list_length: le16_at(b, 4),
                            description: display_chars(units_of(tail).take(k)),
                            device_path: b.subrange(dp_start, dp_start + fpll),
                            optional_data: b.skip(dp_start + fpll),
                        },
                    )
                }
            },
        }
    }
}

/// Splits one boot-option blob into attributes, description, device path
/// and optional data, or says which field failed.
pub fn decode_load_option(bytes: &[u8]) -> (r: Result<LoadOption, BootError>)
    ensures
        match r {
            Ok(lo) => load_option_spec(bytes@) == Ok::<LoadOptionModel, BootError>(lo@)
                && lo@.wf(),
            Err(e) => load_option_spec(bytes@) == Err::<LoadOptionModel, BootError>(e),
        },
{
    if bytes.len() < 6 {
        return Err(BootError::TruncatedHeader);
    }
    let attributes = read_le32(bytes, 0);
    let fpll = read_le16(bytes, 4);
    let tail = slice_subrange(bytes, 6, bytes.len());
    proof {
        assert(tail@ =~= bytes@.skip(6));
    }
    let k = match find_null_unit(tail) {
        Some(k) => k,
        None => {
            return Err(BootError::UnterminatedDescription);
        },
    };
    let description = decode_units(tail, k);
    let dp_start = 6 + 2 * k + 2;
    if (fpll as usize) > bytes.len() - dp_start {
        return Err(BootError::PathListSizeMismatch);
    }
    let dp_end = dp_start + fpll as usize;
    let device_path_bytes = slice_to_vec(slice_subrange(bytes, dp_start, dp_end));
    let optional_data = slice_to_vec(slice_subrange(bytes, dp_end, bytes.len()));
    proof {
        assert(device_path_bytes@ =~= bytes@.subrange(6 + 2 * k + 2, 6 + 2 * k + 2 + fpll));
        assert(optional_data@ =~= bytes@.skip(6 + 2 * k + 2 + fpll));
        lemma_find_null_first(units_of(tail@));
        assert(forall|j: int| 0 <= j < k ==> units_of(tail@).take(k as int)[j] != 0);
        lemma_display_chars_ascii(units_of(tail@).take(k as int));
    }
    Ok(
        LoadOption {
            attributes,
            file_path_list_length: fpll,
            description,
            device_path_bytes,
            optional_data,
        },
    )
}

/// The two bytes that store one ASCII character as a UTF-16LE code unit,
/// repeated over a whole text.
pub open spec fn utf16le_bytes(s: Seq<char>) -> Seq<u8>
    decreases s.len(),
{
    if s.len() == 0 {
        Seq::empty()
    } else {
        seq![s[0] as u8, 0u8] + utf16le_bytes(s.drop_first())
    }
}

/// The blob that stores a load option: header, description with its
/// terminator, device path, optional data.
pub open spec fn encode_load_option_spec(lo: LoadOptionModel) -> Seq<u8> {
    le32_bytes(lo.attributes) + le16_bytes(lo.file_path_list_length) + utf16le_bytes(lo.description)
        + seq![0u8, 0u8] + lo.device_path + lo.optional_data
}

/// Writes a load option back into blob form.
pub fn encode_load_option(lo: &LoadOption) -> (r: Vec<u8>)
    requires
        lo@.wf(),
    ensures
        r@ == encode_load_option_spec(lo@),
{
    let ghost desc = lo@.description;
    let mut r = write_le32(lo.attributes);
    let mut fpll_bytes = write_le16(lo.file_path_list_length);
    r.append(&mut fpll_bytes);
    let n = lo.description.as_str().unicode_len();
    let mut i: usize = 0;
    proof {
        assert(desc.skip(0) =~= desc);
        assert(r@ + utf16le_bytes(desc) =~= le32_bytes(lo@.attributes) + le16_bytes(
            lo@.file_path_list_length,
        ) + utf16le_bytes(desc));
    }
    while i < n
        invariant
            0 <= i <= n == desc.len(),
            desc == lo@.description,
            lo@.wf(),
            r@ + utf16le_bytes(desc.skip(i as int)) == le32_bytes(lo@.attributes) + le16_bytes(
                lo@.file_path_list_length,
            ) + utf16le_bytes(desc),
        decreases n - i,
    {
        let c = lo.description.as_str().get_char(i);
        let ghost rest = desc.skip(i as int);
        assert(rest[0] == c);
        r.push(c as u8);
        r.push(0u8);
        proof {
            assert(rest.drop_first() =~= desc.skip(i + 1));
            assert(utf16le_bytes(rest) == seq![rest[0] as u8, 0u8] + utf16le_bytes(
                rest.drop_first(),
            ));
            assert(r@ + utf16le_bytes(desc.skip(i + 1)) =~= le32_bytes(lo@.attributes)
                + le16_bytes(lo@.file_path_list_length) + utf16le_bytes(desc));
        }
        i = i + 1;
    }
    r.push(0u8);
    r.push(0u8);
    let mut dp = slice_to_vec(lo.device_path_bytes.as_slice());
    r.append(&mut dp);
    let mut od = slice_to_vec(lo.optional_data.as_slice());
    r.append(&mut od);
    proof {
        assert(desc.skip(n as int) =~= Seq::<char>::empty());
        assert(r@ =~= encode_load_option_spec(lo@));
    }
    r
}

/// Decoding then re-encoding recovers the structural fields of the header:
/// the re-encoded blob stores the same attributes and the same path-list
/// length at the same offsets as the original blob.
/// A re-encoded blob stores the attributes and the path-list length of the
/// load option in its first six bytes.
pub proof fn lemma_encode_header(lo: LoadOptionModel)
    ensures
        le32_at(encode_load_option_spec(lo), 0) == lo.attributes,
        le16_at(encode_load_option_spec(lo), 4) == lo.file_path_list_length,
{
    let e = encode_load_option_spec(lo);
    let a = le32_bytes(lo.attributes);
    let f = le16_bytes(lo.file_path_list_length);
    assert(a.len() == 4 && f.len() == 2);
    assert(e[0] == a[0] && e[1] == a[1] && e[2] == a[2] && e[3] == a[3]) by {
        assert(e == a + f + utf16le_bytes(lo.description) + seq![0u8, 0u8] + lo.device_path
            + lo.optional_data);
    }
    assert(e[4] == f[0] && e[5] == f[1]) by {
        assert(e == a + f + utf16le_bytes(lo.description) + seq![0u8, 0u8] + lo.device_path
            + lo.optional_data);
    }
}

/// Decoding then re-encoding recovers the structural fields of the header:
/// the re-encoded blob stores the same attributes and the same path-list
/// length at the same offsets as the original blob.
pub proof fn lemma_structural_round_trip(b: Seq<u8>, lo: LoadOptionModel)
    requires
        load_option_spec(b) == Ok::<LoadOptionModel, BootError>(lo),
    ensures
        le16_at(encode_load_option_spec(lo), 4) == le16_at(b, 4),
        le32_at(encode_load_option_spec(lo), 0) == le32_at(b, 0),
{
    lemma_encode_header(lo);
    assert(lo.file_path_list_length == le16_at(b, 4));
    assert(lo.attributes == le32_at(b, 0));
}

proof fn lemma_utf16le_bytes_shape(s: Seq<char>)
    ensures
        utf16le_bytes(s).len() == 2 * s.len(),
        forall|j: int|
            0 <= j < s.len() ==> utf16le_bytes(s)[2 * j] == (#[trigger] s[j]) as u8
                && utf16le_bytes(s)[2 * j + 1] == 0u8,
    decreases s.len(),
{
    if s.len() > 0 {
        lemma_utf16le_bytes_shape(s.drop_first());
        let u = utf16le_bytes(s);
        let r = utf16le_bytes(s.drop_first());
        assert forall|j: int|
            0 <= j < s.len() implies u[2 * j] == (#[trigger] s[j]) as u8 && u[2 * j + 1]
            == 0u8 by {
            if j >= 1 {
                assert(u[2 * j] == r[2 * (j - 1)]);
                assert(u[2 * j + 1] == r[2 * (j - 1) + 1]);
                assert(s.drop_first()[j - 1] == s[j]);
            }
        }
    }
}

proof fn lemma_display_chars_of_ascii(us: Seq<u16>, d: Seq<char>)
    requires
        us.len() == d.len(),
        forall|j: int| 0 <= j < d.len() ==> 0 < (#[trigger] d[j] as int) < 128,
        forall|j: int| 0 <= j < us.len() ==> (#[trigger] us[j]) as int == d[j] as int,
    ensures
        display_chars(us) == d,
    decreases us.len(),
{
    if us.len() > 0 {
        assert(forall|j: int|
            0 <= j < us.skip(1).len() ==> #[trigger] us.skip(1)[j] == us[j + 1]);
        assert(forall|j: int| 0 <= j < d.skip(1).len() ==> #[trigger] d.skip(1)[j] == d[j + 1]);
        lemma_display_chars_of_ascii(us.skip(1), d.skip(1));
        assert(us[0] < 0x80);
        assert(us[0] as u8 as char == d[0]);
        assert(display_chars(us) =~= d);
    }
}

/// Decoding inverts encoding: a well-formed load option written to blob
/// form and decoded again comes back unchanged.
pub proof fn lemma_decode_inverts_encode(lo: LoadOptionModel)
    requires
        lo.wf(),
    ensures
        load_option_spec(encode_load_option_spec(lo)) == Ok::<LoadOptionModel, BootError>(lo),
{
    let b = encode_load_option_spec(lo);
    let d = lo.description;
    let u = utf16le_bytes(d);
    let dn = d.len() as int;
    lemma_utf16le_bytes_shape(d);
    lemma_encode_header(lo);
    let tail = b.skip(6);
    assert(tail =~= u + seq![0u8, 0u8] + lo.device_path + lo.optional_data);
    let us = units_of(tail);
    assert(us.len() == tail.len() / 2);
    assert forall|j: int| 0 <= j < dn implies (#[trigger] us[j]) as int == d[j] as int by {
        assert(0 < (d[j] as int) < 128);
        assert(tail[2 * j] == u[2 * j] && tail[2 * j + 1] == u[2 * j + 1]);
        assert(us[j] == le16_at(tail, 2 * j));
        assert(us[j] == d[j] as u8);
    }
    assert(us[dn] == 0) by {
        assert(tail[2 * dn] == 0u8 && tail[2 * dn + 1] == 0u8);
        assert(us[dn] == le16_at(tail, 2 * dn));
    }
    assert(forall|j: int| 0 <= j < dn ==> us[j] != 0);
    crate::text::lemma_find_null_at(us, dn);
    assert(us.take(dn).len() == d.len());
    lemma_display_chars_of_ascii(us.take(dn), d);
    let dp_start = 6 + 2 * dn + 2;
    assert(b.len() == dp_start + lo.device_path.len() + lo.optional_data.len());
    assert(le16_at(b, 4) == lo.file_path_list_length && le32_at(b, 0) == lo.attributes);
    assert(b.subrange(dp_start, dp_start + lo.file_path_list_length as int) =~= lo.device_path);
    assert(b.skip(dp_start + lo.file_path_list_length as int) =~= lo.optional_data);
}

proof fn lemma_display_chars_of_plain_units(us: Seq<u16>)
    requires
        forall|j: int| 0 <= j < us.len() ==> 0 < (#[trigger] us[j]) < 0x80,
    ensures
        display_chars(us).len() == us.len(),
        forall|j: int| 0 <= j < us.len() ==> (#[trigger] display_chars(us)[j] as int) == us[j],
    decreases us.len(),
{
    if us.len() > 0 {
        assert(forall|j: int|
            0 <= j < us.skip(1).len() ==> #[trigger] us.skip(1)[j] == us[j + 1]);
        lemma_display_chars_of_plain_units(us.skip(1));
        assert(display_chars(us) == seq![us[0] as u8 as char] + display_chars(us.skip(1)));
        assert((us[0] as u8 as char) as int == us[0]);
        assert(forall|j: int|
            1 <= j < display_chars(us).len() ==> #[trigger] display_chars(us)[j] == display_chars(
                us.skip(1),
            )[j - 1]);
    }
}

/// A blob whose stored description is plain ASCII: every code unit before
/// the terminator is above zero and below `0x80`.
pub open spec fn canonical_description(b: Seq<u8>) -> bool {
    match find_null(units_of(b.skip(6))) {
        Some(k) => forall|j: int| 0 <= j < k ==> 0 < (#[trigger] units_of(b.skip(6))[j]) < 0x80,
        None => false,
    }
}

/// Encoding inverts decoding, byte for byte, on every blob whose stored
/// description is plain ASCII.
#[verifier::rlimit(30)]
pub proof fn lemma_encode_inverts_decode(b: Seq<u8>, lo: LoadOptionModel)
    requires
        load_option_spec(b) == Ok::<LoadOptionModel, BootError>(lo),
        canonical_description(b),
    ensures
        encode_load_option_spec(lo) == b,
{
    let tail = b.skip(6);
    let us = units_of(tail);
    lemma_find_null_first(us);
    let k = find_null(us)->Some_0;
    let d = lo.description;
    assert(forall|j: int| 0 <= j < k ==> #[trigger] us.take(k)[j] == us[j]);
    lemma_display_chars_of_plain_units(us.take(k));
    assert(d.len() == k);
    lemma_utf16le_bytes_shape(d);
    let u = utf16le_bytes(d);
    assert forall|j: int| 0 <= j < 2 * k implies u[j] == tail[j] by {
        let h = j / 2;
        assert(0 <= h < k);
        assert((d[h] as int) == us[h]);
        assert(us[h] == le16_at(tail, 2 * h));
        assert(tail[2 * h] + 256 * tail[2 * h + 1] < 0x80);
        assert(tail[2 * h + 1] == 0 && tail[2 * h] == us[h]);
        assert(u[2 * h] == d[h] as u8 && u[2 * h + 1] == 0u8);
        assert(j == 2 * h || j == 2 * h + 1);
    }
    assert(us[k] == le16_at(tail, 2 * k) && us[k] == 0);
    assert(tail[2 * k] == 0u8 && tail[2 * k + 1] == 0u8);
    lemma_le32_at_bytes(b, 0);
    lemma_le16_at_bytes(b, 4);
    let dp_start = 6 + 2 * k + 2;
    let fpll = lo.file_path_list_length as int;
    assert(lo.device_path == b.subrange(dp_start, dp_start + fpll));
    assert(lo.optional_data == b.skip(dp_start + fpll));
    let e = encode_load_option_spec(lo);
    assert(e.len() == b.len());
    assert forall|i: int| 0 <= i < b.len() implies e[i] == b[i] by {
        if i < 4 {
            assert(e[i] == le32_bytes(lo.attributes)[i]);
            assert(le32_bytes(lo.attributes)[i] == b.subrange(0, 4)[i]);
        } else if i < 6 {
            assert(e[i] == le16_bytes(lo.file_path_list_length)[i - 4]);
            assert(le16_bytes(lo.file_path_list_length)[i - 4] == b.subrange(4, 6)[i - 4]);
        } else if i < 6 + 2 * k {
            assert(e[i] == u[i - 6]);
            assert(tail[i - 6] == b[i]);
        } else if i < dp_start {
            assert(e[i] == seq![0u8, 0u8][i - 6 - 2 * k]);
            assert(tail[i - 6] == b[i]);
        } else if i < dp_start + fpll {
            assert(e[i] == lo.device_path[i - dp_start]);
            assert(lo.device_path[i - dp_start] == b.subrange(dp_start, dp_start + fpll)[i
                - dp_start]);
        } else {
            assert(e[i] == lo.optional_data[i - dp_start - fpll]);
            assert(lo.optional_data[i - dp_start - fpll] == b.skip(dp_start + fpll)[i - dp_start
                - fpll]);
        }
    }
    assert(e =~= b);
}

} // verus!
