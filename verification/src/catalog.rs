//! Gathering decoded boot entries into an ordered catalog.
//!
//! Each `(name, bytes)` pair from the platform is decoded on its own; a pair
//! whose name or blob cannot be decoded is dropped and never aborts the
//! scan.  An optional inclusion policy also drops entries whose device path
//! ends at a platform-default removable-media loader.  The surviving
//! entries are sorted ascending by id, stably.

use vstd::prelude::*;
use vstd::string::{StrSliceExecFns, StringExecFns};
use crate::device_path::{labels_view, opt_view, walk_device_path, walk_from};
use crate::error::BootError;
use crate::load_option::{decode_load_option, load_option_spec};
use crate::name::{is_boot_var_name, lemma_name_id_bound, name_id, parse_boot_var_name};

verus! {

/// ASCII code of a character with uppercase letters folded to lowercase.
pub open spec fn lower_u32(c: char) -> u32 {
    if 65 <= c as u32 <= 90 {
        (c as u32 + 32) as u32
    } else {
        c as u32
    }
}

/// Equality of two texts up to ASCII case.
pub open spec fn ascii_eq_ci(a: Seq<char>, b: Seq<char>) -> bool {
    a.len() == b.len() && forall|i: int| 0 <= i < a.len() ==> lower_u32(a[i]) == lower_u32(b[i])
}

/// Compares two texts, folding ASCII uppercase to lowercase.
pub fn eq_ignore_ascii_case(a: &str, b: &str) -> (r: bool)
    ensures
        r == ascii_eq_ci(a@, b@),
{
    let n = a.unicode_len();
    if n != b.unicode_len() {
        return false;
    }
    let mut i: usize = 0;
    while i < n
        invariant
            i <= n == a@.len(),
            a@.len() == b@.len(),
            forall|j: int| 0 <= j < i ==> lower_u32(a@[j]) == lower_u32(b@[j]),
        decreases n - i,
    {
        let ca = a.get_char(i) as u32;
        let cb = b.get_char(i) as u32;
        let la = if 65 <= ca && ca <= 90 {
            ca + 32
        } else {
            ca
        };
        let lb = if 65 <= cb && cb <= 90 {
            cb + 32
        } else {
            cb
        };
        if la != lb {
            return false;
        }
        i = i + 1;
    }
    true
}

/// Whether a media file path is one of the platform's default
/// removable-media loaders, compared up to ASCII case.
pub open spec fn is_default_loader_label(f: Seq<char>) -> bool {
    ascii_eq_ci(f, "\\EFI\\BOOT\\BOOTX64.EFI"@) || ascii_eq_ci(f, "\\EFI\\BOOT\\BOOTAA64.EFI"@)
}

/// Whether the walk ended at a default removable-media loader.
pub open spec fn is_default_loader_path(ff: Option<Seq<char>>) -> bool {
    ff matches Some(f) && is_default_loader_label(f)
}

/// Decides whether a media file path names a platform-default
/// removable-media loader.
pub fn is_default_loader(f: &str) -> (r: bool)
    ensures
        r == is_default_loader_label(f@),
{
    eq_ignore_ascii_case(f, "\\EFI\\BOOT\\BOOTX64.EFI") || eq_ignore_ascii_case(
        f,
        "\\EFI\\BOOT\\BOOTAA64.EFI",
    )
}

/// Mathematical content of one catalog entry.
pub ghost struct EntryModel {
    pub id: u16,
    pub raw_suffix: Seq<char>,
    pub description: Seq<char>,
    pub path_summary: Seq<Seq<char>>,
}

/// One presentable boot entry.
#[derive(Debug, PartialEq, Eq)]
pub struct BootEntry {
    /// The 16-bit id spelled by the name's hex digits.
    pub id: u16,
    /// The four-digit suffix of the variable name, kept verbatim.
    pub raw_suffix: String,
    /// The decoded description text.
    pub description: String,
    /// The labels the device-path walk emitted, in order.
    pub path_summary: Vec<String>,
}

impl View for BootEntry {
    type V = EntryModel;

    open spec fn view(&self) -> EntryModel {
        EntryModel {
            id: self.id,
            raw_suffix: self.raw_suffix@,
            description: self.description@,
            path_summary: labels_view(self.path_summary@),
        }
    }
}

/// The labels joined by single spaces.
pub open spec fn joined_labels(ls: Seq<Seq<char>>) -> Seq<char>
    decreases ls.len(),
{
    if ls.len() == 0 {
        Seq::empty()
    } else if ls.len() == 1 {
        ls[0]
    } else {
        ls[0] + seq![' '] + joined_labels(ls.drop_first())
    }
}

proof fn lemma_joined_labels_snoc(ls: Seq<Seq<char>>, l: Seq<char>)
    ensures
        joined_labels(ls.push(l)) == if ls.len() == 0 {
            l
        } else {
            joined_labels(ls) + seq![' '] + l
        },
    decreases ls.len(),
{
    if ls.len() == 0 {
        assert(ls.push(l)[0] == l);
    } else {
        lemma_joined_labels_snoc(ls.drop_first(), l);
        assert(ls.push(l).drop_first() =~= ls.drop_first().push(l));
        assert(ls.push(l)[0] == ls[0]);
        if ls.len() == 1 {
            assert(joined_labels(ls.push(l)) =~= joined_labels(ls) + seq![' '] + l);
        } else {
            assert(ls[0] + seq![' '] + (joined_labels(ls.drop_first()) + seq![' '] + l) =~= (ls[0]
                + seq![' '] + joined_labels(ls.drop_first())) + seq![' '] + l);
        }
    }
}

/// The one-line presentation of an entry: its name suffix, its description,
/// and its path labels joined by spaces.
pub open spec fn display_line_spec(e: EntryModel) -> Seq<char> {
    "Boot"@ + e.raw_suffix + ": "@ + e.description + ", at: '"@ + joined_labels(e.path_summary)
        + "'"@
}

impl BootEntry {
    /// The line the presentation surface shows for this entry.
    pub fn display_line(&self) -> (r: String)
        ensures
            r@ == display_line_spec(self@),
    {
        let ghost ls = labels_view(self.path_summary@);
        let ghost head = "Boot"@ + self@.raw_suffix + ": "@ + self@.description + ", at: '"@;
        let mut s = String::from_str("Boot");
        s.append(self.raw_suffix.as_str());
        s.append(": ");
        s.append(self.description.as_str());
        s.append(", at: '");
        proof {
            assert(s@ =~= head + joined_labels(ls.take(0)));
        }
        let mut i: usize = 0;
        while i < self.path_summary.len()
            invariant
                i <= self.path_summary@.len(),
                ls == labels_view(self.path_summary@),
                head == "Boot"@ + self@.raw_suffix + ": "@ + self@.description + ", at: '"@,
                s@ == head + joined_labels(ls.take(i as int)),
            decreases self.path_summary@.len() - i,
        {
            let ghost pre = joined_labels(ls.take(i as int));
            if i > 0 {
                s.append(" ");
            }
            s.append(self.path_summary[i].as_str());
            proof {
                reveal_strlit(" ");
                lemma_joined_labels_snoc(ls.take(i as int), ls[i as int]);
                assert(ls.take(i + 1) =~= ls.take(i as int).push(ls[i as int]));
                if i > 0 {
                    assert(" "@ =~= seq![' ']);
                    assert((head + pre) + " "@ + ls[i as int] =~= head + (pre + seq![' ']
                        + ls[i as int]));
                } else {
                    assert((head + pre) + ls[i as int] =~= head + ls[i as int]);
                }
            }
            i = i + 1;
        }
        s.append("'");
        proof {
            assert(ls.take(self.path_summary@.len() as int) =~= ls);
            assert((head + joined_labels(ls)) + "'"@ =~= display_line_spec(self@));
        }
        s
    }
}

/// The models of a sequence of entries.
pub open spec fn entries_view(v: Seq<BootEntry>) -> Seq<EntryModel> {
    Seq::new(v.len(), |i: int| v[i]@)
}

/// The texts of a sequence of `(name, bytes)` pairs.
pub open spec fn pairs_view(ps: Seq<(String, Vec<u8>)>) -> Seq<(Seq<char>, Seq<u8>)> {
    Seq::new(ps.len(), |i: int| (ps[i].0@, ps[i].1@))
}

/// What decoding one variable yields: its entry and the last media file
/// path of its walk, or the first fault found.
pub open spec fn decode_entry_spec(name: Seq<char>, bytes: Seq<u8>) -> Result<
    (EntryModel, Option<Seq<char>>),
    BootError,
> {
    if !is_boot_var_name(name) {
        Err(BootError::InvalidVariableName)
    } else {
        match load_option_spec(bytes) {
            Err(e) => Err(e),
            Ok(lo) => match walk_from(lo.device_path, 0) {
                Err(e) => Err(e),
                Ok(w) => Ok(
                    (
                        EntryModel {
                            id: name_id(name) as u16,
                            raw_suffix: name.subrange(4, 8),
                            description: lo.description,
                            path_summary: w.labels,
                        },
                        w.final_file,
                    ),
                ),
            },
        }
    }
}

/// Decodes one boot variable end to end: name, load option, device path.
///
/// Returns the entry together with the last media file path its walk
/// showed, which the catalog's inclusion policy reads.
pub fn decode_boot_entry(name: &str, bytes: &[u8]) -> (r: Result<
    (BootEntry, Option<String>),
    BootError,
>)
    ensures
        match r {
            Ok(p) => decode_entry_spec(name@, bytes@) == Ok::<
                (EntryModel, Option<Seq<char>>),
                BootError,
            >((p.0@, opt_view(p.1))),
            Err(e) => decode_entry_spec(name@, bytes@) == Err::<
                (EntryModel, Option<Seq<char>>),
                BootError,
            >(e),
        },
{
    let (id, raw_suffix) = match parse_boot_var_name(name) {
        Ok(p) => p,
        Err(e) => {
            return Err(e);
        },
    };
    let lo = match decode_load_option(bytes) {
        Ok(lo) => lo,
        Err(e) => {
            return Err(e);
        },
    };
    let summary = match walk_device_path(lo.device_path_bytes.as_slice()) {
        Ok(s) => s,
        Err(e) => {
            return Err(e);
        },
    };
    proof {
        lemma_name_id_bound(name@);
    }
    Ok(
        (
            BootEntry { id, raw_suffix, description: lo.description, path_summary: summary.labels },
            summary.final_media_file,
        ),
    )
}

/// The entry a pair contributes to the catalog: none when it cannot be
/// decoded, and none when the inclusion policy drops a default loader.
pub open spec fn scan_one(name: Seq<char>, bytes: Seq<u8>, drop_default: bool) -> Option<
    EntryModel,
> {
    match decode_entry_spec(name, bytes) {
        Err(_) => None,
        Ok(p) => {
            if drop_default && is_default_loader_path(p.1) {
                None
            } else {
                Some(p.0)
            }
        },
    }
}

/// The entries a scan of the pairs yields, in input order.
pub open spec fn scan_entries(pairs: Seq<(Seq<char>, Seq<u8>)>, drop_default: bool) -> Seq<
    EntryModel,
>
    decreases pairs.len(),
{
    if pairs.len() == 0 {
        Seq::empty()
    } else {
        (match scan_one(pairs[0].0, pairs[0].1, drop_default) {
            Some(e) => seq![e],
            None => Seq::empty(),
        }) + scan_entries(pairs.drop_first(), drop_default)
    }
}

/// An entry put before the first existing entry with an id at least as
/// large: the stable insertion step.
pub open spec fn insert_by_id(e: EntryModel, s: Seq<EntryModel>) -> Seq<EntryModel>
    decreases s.len(),
{
    if s.len() == 0 {
        seq![e]
    } else if e.id <= s[0].id {
        seq![e] + s
    } else {
        seq![s[0]] + insert_by_id(e, s.drop_first())
    }
}

/// The entries sorted ascending by id, stably.
pub open spec fn sort_by_id(s: Seq<EntryModel>) -> Seq<EntryModel>
    decreases s.len(),
{
    if s.len() == 0 {
        Seq::empty()
    } else {
        insert_by_id(s[0], sort_by_id(s.drop_first()))
    }
}

/// What a whole scan yields: the decodable, policy-surviving entries,
/// sorted ascending by id.
pub open spec fn catalog_spec(pairs: Seq<(Seq<char>, Seq<u8>)>, drop_default: bool) -> Seq<
    EntryModel,
> {
    sort_by_id(scan_entries(pairs, drop_default))
}

/// Ascending id order.
pub open spec fn sorted_by_id(s: Seq<EntryModel>) -> bool {
    forall|i: int, j: int| 0 <= i < j < s.len() ==> s[i].id <= s[j].id
}

proof fn lemma_insert_by_id_sorted(e: EntryModel, s: Seq<EntryModel>)
    requires
        sorted_by_id(s),
    ensures
        sorted_by_id(insert_by_id(e, s)),
        insert_by_id(e, s).len() == s.len() + 1,
        forall|i: int| 0 <= i < insert_by_id(e, s).len() ==> (#[trigger] insert_by_id(e, s)[i] == e
            || exists|j: int| 0 <= j < s.len() && insert_by_id(e, s)[i] == s[j]),
    decreases s.len(),
{
    if s.len() == 0 {
    } else if e.id <= s[0].id {
    } else {
        assert(forall|j: int|
            0 <= j < s.drop_first().len() ==> #[trigger] s.drop_first()[j] == s[j + 1]);
        lemma_insert_by_id_sorted(e, s.drop_first());
        let r = insert_by_id(e, s);
        let r1 = insert_by_id(e, s.drop_first());
        assert(forall|j: int| 0 <= j < r1.len() ==> #[trigger] r[j + 1] == r1[j]);
        assert forall|i: int, j: int| 0 <= i < j < r.len() implies r[i].id <= r[j].id by {
            if 1 <= i {
                assert(r[i] == r1[i - 1] && r[j] == r1[j - 1]);
            } else {
                assert(r[j] == r1[j - 1]);
            }
        }
    }
}

/// The catalog is sorted ascending by id.
pub proof fn lemma_catalog_sorted(pairs: Seq<(Seq<char>, Seq<u8>)>, drop_default: bool)
    ensures
        sorted_by_id(catalog_spec(pairs, drop_default)),
{
    lemma_sort_by_id_sorted(scan_entries(pairs, drop_default));
}

proof fn lemma_sort_by_id_sorted(s: Seq<EntryModel>)
    ensures
        sorted_by_id(sort_by_id(s)),
    decreases s.len(),
{
    if s.len() > 0 {
        lemma_sort_by_id_sorted(s.drop_first());
        lemma_insert_by_id_sorted(s[0], sort_by_id(s.drop_first()));
    }
}

proof fn lemma_insert_by_id_multiset(e: EntryModel, s: Seq<EntryModel>)
    ensures
        insert_by_id(e, s).to_multiset() =~= s.to_multiset().insert(e),
    decreases s.len(),
{
    broadcast use vstd::seq_lib::group_to_multiset_ensures;
    broadcast use vstd::multiset::group_multiset_axioms;

    if s.len() == 0 {
        assert(seq![e] =~= Seq::<EntryModel>::empty().push(e));
    } else if e.id <= s[0].id {
        vstd::seq_lib::lemma_multiset_commutative(seq![e], s);
        assert(seq![e] =~= Seq::<EntryModel>::empty().push(e));
    } else {
        lemma_insert_by_id_multiset(e, s.drop_first());
        vstd::seq_lib::lemma_multiset_commutative(seq![s[0]], insert_by_id(e, s.drop_first()));
        vstd::seq_lib::lemma_multiset_commutative(seq![s[0]], s.drop_first());
        assert(s =~= seq![s[0]] + s.drop_first());
        assert(seq![s[0]] =~= Seq::<EntryModel>::empty().push(s[0]));
    }
}

/// Sorting loses and invents nothing: the catalog holds exactly the entries
/// the scan yields, as a multiset.
pub proof fn lemma_catalog_permutes_scan(pairs: Seq<(Seq<char>, Seq<u8>)>, drop_default: bool)
    ensures
        catalog_spec(pairs, drop_default).to_multiset() == scan_entries(
            pairs,
            drop_default,
        ).to_multiset(),
{
    lemma_sort_by_id_multiset(scan_entries(pairs, drop_default));
}

proof fn lemma_sort_by_id_multiset(s: Seq<EntryModel>)
    ensures
        sort_by_id(s).to_multiset() =~= s.to_multiset(),
    decreases s.len(),
{
    broadcast use vstd::seq_lib::group_to_multiset_ensures;
    broadcast use vstd::multiset::group_multiset_axioms;

    if s.len() > 0 {
        lemma_sort_by_id_multiset(s.drop_first());
        lemma_insert_by_id_multiset(s[0], sort_by_id(s.drop_first()));
        vstd::seq_lib::lemma_multiset_commutative(seq![s[0]], s.drop_first());
        assert(s =~= seq![s[0]] + s.drop_first());
        assert(seq![s[0]] =~= Seq::<EntryModel>::empty().push(s[0]));
    }
}

/// A variable whose name is not `Boot` + four hex digits yields no entry.
pub proof fn lemma_invalid_name_no_entry(name: Seq<char>, bytes: Seq<u8>, drop_default: bool)
    requires
        !is_boot_var_name(name),
    ensures
        scan_one(name, bytes, drop_default) is None,
{
}

/// A pair whose name is not `Boot` + four hex digits can be taken out of
/// the scan without changing the catalog at all.
pub proof fn lemma_invalid_name_ignored(
    pairs: Seq<(Seq<char>, Seq<u8>)>,
    i: int,
    drop_default: bool,
)
    requires
        0 <= i < pairs.len(),
        !is_boot_var_name(pairs[i].0),
    ensures
        catalog_spec(pairs.remove(i), drop_default) == catalog_spec(pairs, drop_default),
    decreases pairs.len(),
{
    lemma_invalid_name_removed(pairs, i, drop_default);
}

proof fn lemma_invalid_name_removed(pairs: Seq<(Seq<char>, Seq<u8>)>, i: int, drop_default: bool)
    requires
        0 <= i < pairs.len(),
        !is_boot_var_name(pairs[i].0),
    ensures
        scan_entries(pairs.remove(i), drop_default) == scan_entries(pairs, drop_default),
    decreases pairs.len(),
{
    if i == 0 {
        assert(pairs.remove(0) =~= pairs.drop_first());
    } else {
        lemma_invalid_name_removed(pairs.drop_first(), i - 1, drop_default);
        assert(pairs.remove(i).drop_first() =~= pairs.drop_first().remove(i - 1));
        assert(pairs.remove(i)[0] == pairs[0]);
    }
}

/// Scanning an unchanged variable source twice yields identical,
/// identically ordered catalogs: the catalog is a function of the pairs and
/// the policy flag alone.
pub proof fn lemma_catalog_deterministic(
    pairs: Seq<(Seq<char>, Seq<u8>)>,
    drop_default: bool,
    c1: Seq<EntryModel>,
    c2: Seq<EntryModel>,
)
    requires
        c1 == catalog_spec(pairs, drop_default),
        c2 == catalog_spec(pairs, drop_default),
    ensures
        c1 == c2,
{
}

proof fn lemma_insert_by_id_at(s: Seq<EntryModel>, e: EntryModel, j: int)
    requires
        0 <= j <= s.len(),
        forall|k: int| 0 <= k < j ==> (#[trigger] s[k]).id < e.id,
        j < s.len() ==> e.id <= s[j].id,
    ensures
        insert_by_id(e, s) == s.take(j) + seq![e] + s.skip(j),
    decreases j,
{
    if j == 0 {
        if s.len() == 0 {
            assert(insert_by_id(e, s) =~= s.take(0) + seq![e] + s.skip(0));
        } else {
            assert(insert_by_id(e, s) =~= s.take(0) + seq![e] + s.skip(0));
        }
    } else {
        assert(forall|k: int|
            0 <= k < s.drop_first().len() ==> #[trigger] s.drop_first()[k] == s[k + 1]);
        lemma_insert_by_id_at(s.drop_first(), e, j - 1);
        assert(insert_by_id(e, s) == seq![s[0]] + (s.drop_first().take(j - 1) + seq![e]
            + s.drop_first().skip(j - 1)));
        assert(seq![s[0]] + (s.drop_first().take(j - 1) + seq![e] + s.drop_first().skip(j - 1)) =~= s.take(
            j,
        ) + seq![e] + s.skip(j));
    }
}

/// Puts one entry into an id-sorted vector, before the first entry whose id
/// is at least as large.
fn insert_sorted(v: &mut Vec<BootEntry>, e: BootEntry)
    ensures
        entries_view(final(v)@) == insert_by_id(e@, entries_view(old(v)@)),
{
    let ghost s = entries_view(old(v)@);
    let mut j: usize = 0;
    while j < v.len() && v[j].id < e.id
        invariant
            j <= v@.len(),
            v == old(v),
            s == entries_view(v@),
            forall|k: int| 0 <= k < j ==> (#[trigger] s[k]).id < e.id,
        decreases v@.len() - j,
    {
        assert(s[j as int].id == v@[j as int].id);
        j = j + 1;
    }
    proof {
        lemma_insert_by_id_at(s, e@, j as int);
    }
    v.insert(j, e);
    proof {
        assert(entries_view(v@) =~= s.take(j as int) + seq![e@] + s.skip(j as int));
    }
}

/// Scans every pair and gathers the surviving entries, sorted ascending by
/// id: a pair that does not decode is dropped, the scan goes on, and, with
/// the policy flag set, so is every entry whose device path ends at a
/// platform-default removable-media loader.
pub fn build_catalog(pairs: &Vec<(String, Vec<u8>)>, drop_default_loaders: bool) -> (r: Vec<
    BootEntry,
>)
    ensures
        entries_view(r@) == catalog_spec(pairs_view(pairs@), drop_default_loaders),
{
    let ghost pv = pairs_view(pairs@);
    let mut found: Vec<BootEntry> = Vec::new();
    let mut i: usize = 0;
    proof {
        assert(pv.skip(0) =~= pv);
        assert(entries_view(found@) =~= Seq::<EntryModel>::empty());
        assert(Seq::<EntryModel>::empty() + scan_entries(pv, drop_default_loaders) =~= scan_entries(
            pv,
            drop_default_loaders,
        ));
    }
    while i < pairs.len()
        invariant
            i <= pairs@.len(),
            pv == pairs_view(pairs@),
            entries_view(found@) + scan_entries(pv.skip(i as int), drop_default_loaders)
                == scan_entries(pv, drop_default_loaders),
        decreases pairs@.len() - i,
    {
        let ghost pre = entries_view(found@);
        let ghost rest = pv.skip(i as int);
        proof {
            assert(rest[0] == pv[i as int]);
            assert(rest.drop_first() =~= pv.skip(i + 1));
        }
        let p = &pairs[i];
        match decode_boot_entry(p.0.as_str(), p.1.as_slice()) {
            Err(_) => {},
            Ok((entry, ff)) => {
                let mut keep = true;
                if drop_default_loaders {
                    match &ff {
                        Some(f) => {
                            if is_default_loader(f.as_str()) {
                                keep = false;
                            }
                        },
                        None => {},
                    }
                }
                if keep {
                    let ghost ev = entry@;
                    found.push(entry);
                    proof {
                        assert(entries_view(found@) =~= pre.push(ev));
                        assert(pre.push(ev) + scan_entries(pv.skip(i + 1), drop_default_loaders)
                            =~= pre + (seq![ev] + scan_entries(
                            pv.skip(i + 1),
                            drop_default_loaders,
                        )));
                    }
                }
            },
        }
        i = i + 1;
    }
    proof {
        assert(pv.skip(pairs@.len() as int) =~= Seq::<(Seq<char>, Seq<u8>)>::empty());
        assert(entries_view(found@) + Seq::<EntryModel>::empty() =~= entries_view(found@));
    }
    let ghost us0 = found@;
    let mut sorted: Vec<BootEntry> = Vec::new();
    proof {
        assert(found@ =~= us0.take(found@.len() as int));
        assert(entries_view(us0).skip(found@.len() as int) =~= Seq::<EntryModel>::empty());
    }
    while found.len() > 0
        invariant
            found@.len() <= us0.len(),
            found@ == us0.take(found@.len() as int),
            entries_view(sorted@) == sort_by_id(entries_view(us0).skip(found@.len() as int)),
        decreases found@.len(),
    {
        let ghost m = found@.len() as int;
        let e = found.pop().unwrap();
        proof {
            assert(e == us0[m - 1]);
            assert(found@ =~= us0.take(m - 1));
            let tail = entries_view(us0).skip(m - 1);
            assert(tail[0] == e@);
            assert(tail.drop_first() =~= entries_view(us0).skip(m));
        }
        insert_sorted(&mut sorted, e);
    }
    proof {
        assert(entries_view(us0).skip(0) =~= entries_view(us0));
        assert(entries_view(us0) =~= scan_entries(pv, drop_default_loaders));
    }
    sorted
}

} // verus!
