//! Drives and folders shown in the folder tree: the drive list reported by
//! the system, and which subfolders are listed.
//!
//! The system lists the drives as NUL-terminated UTF-16 names, one after
//! another. Folders whose names start with `.` or `$`, and the system's
//! "System Volume Information" folder, are not listed.

use vstd::prelude::*;
use vstd::slice::slice_subrange;
use crate::order::{SortKey, KeyView, is_stable_order, key_views, stable_order};
use crate::text::{
    str_lowercase, str_to_lowercase, chars_eq_ignore_ascii_case, eq_ignore_ascii_case, first_index, lemma_first_index_none,
    lemma_first_index_unique, str_to_chars, str_to_string, utf16_decoded, utf16_to_string,
};

verus! {

/// The drive names in the units `units`: each NUL-terminated piece decoded
/// as UTF-16 (a piece that does not decode counts as empty), empty names
/// left out; units after the last NUL are ignored.
pub open spec fn drive_names(units: Seq<u16>) -> Seq<Seq<char>>
    decreases units.len(),
{
    match first_index(|i: int| units[i] == 0u16, 0, units.len() as int) {
        Some(k) => {
            let name = match utf16_decoded(units.take(k)) {
                Some(s) => s,
                None => seq![],
            };
            let rest = if 0 <= k < units.len() {
                drive_names(units.skip(k + 1))
            } else {
                seq![]
            };
            if name.len() > 0 {
                seq![name] + rest
            } else {
                rest
            }
        },
        None => seq![],
    }
}

/// The drive used when the system reports none.
pub open spec fn fallback_drive() -> Seq<char> {
    seq!['C', ':', '\\']
}

/// The drives listed for the first `len` units of the system's answer; the
/// fallback drive when there are none.
pub open spec fn logical_drives_spec(buffer: Seq<u16>, len: int) -> Seq<Seq<char>> {
    let names = if len == 0 {
        seq![]
    } else {
        drive_names(buffer.take(len))
    };
    if names.len() == 0 {
        seq![fallback_drive()]
    } else {
        names
    }
}

/// The views of a list of strings.
pub open spec fn string_views(v: Seq<String>) -> Seq<Seq<char>> {
    v.map_values(|s: String| s@)
}

/// The fallback drive, `C:\`.
fn fallback_drive_string() -> (res: String)
    ensures
        res@ == fallback_drive(),
{
    let s = str_to_string("C:\\");
    proof {
        reveal_strlit("C:\\");
    }
    s
}

/// The drives in the first `len` units of `buffer`, as the system's drive
/// list fills it.
pub fn parse_logical_drives(buffer: &[u16], len: usize) -> (res: Vec<String>)
    requires
        len <= buffer@.len(),
    ensures
        string_views(res@) == logical_drives_spec(buffer@, len as int),
{
    let mut drives: Vec<String> = Vec::new();
    if len > 0 {
        let units = slice_subrange(buffer, 0, len);
        let ghost all = units@;
        let mut start: usize = 0;
        proof {
            assert(all.skip(0) =~= all);
            assert(string_views(drives@) + drive_names(all.skip(0)) =~= drive_names(all));
        }
        let mut done = false;
        while start < units.len() && !done
            invariant
                all == units@,
                all == buffer@.take(len as int),
                start <= all.len(),
                done ==> drive_names(all.skip(start as int)) == Seq::<Seq<char>>::empty(),
                string_views(drives@) + drive_names(all.skip(start as int)) == drive_names(all),
            decreases all.len() - start + (if done { 0int } else { 1int }),
        {
            let ghost rest_units = all.skip(start as int);
            let k = crate::text::find_nul(units, start);
            let ghost p = |i: int| rest_units[i] == 0u16;
            if k == units.len() {
                proof {
                    assert forall|j: int| 0 <= j < rest_units.len() implies !#[trigger] p(j) by {
                        assert(rest_units[j] == all[start + j]);
                    }
                    lemma_first_index_none(p, 0, rest_units.len() as int);
                }
                done = true;
            } else {
                proof {
                    assert forall|j: int| 0 <= j < k - start implies !#[trigger] p(j) by {
                        assert(rest_units[j] == all[start + j]);
                    }
                    assert(p(k - start));
                    lemma_first_index_unique(p, 0, rest_units.len() as int, k - start);
                    assert(rest_units.skip(k - start + 1) =~= all.skip(k + 1));
                }
                let piece = slice_subrange(units, start, k);
                assert(piece@ =~= rest_units.take(k - start));
                let name = match utf16_to_string(piece) {
                    Some(s) => s,
                    None => String::new(),
                };
                if !name.as_str().is_empty() {
                    let ghost before = string_views(drives@);
                    drives.push(name);
                    proof {
                        assert(string_views(drives@) =~= before.push(name@));
                        assert(before.push(name@) + drive_names(all.skip(k + 1)) =~= before + (seq![name@] + drive_names(all.skip(k + 1))));
                    }
                }
                start = k + 1;
            }
        }
        proof {
            if !done {
                assert(all.skip(start as int) =~= Seq::<u16>::empty());
                lemma_first_index_none(|i: int| all.skip(start as int)[i] == 0u16, 0, 0);
            }
            assert(string_views(drives@) + Seq::<Seq<char>>::empty() =~= string_views(drives@));
        }
    }
    if drives.len() == 0 {
        drives.push(fallback_drive_string());
        assert(string_views(drives@) =~= seq![fallback_drive()]);
    }
    drives
}

/// The name of the system's recovery folder at a drive's root.
pub open spec fn system_volume_information() -> Seq<char> {
    "System Volume Information"@
}

/// A folder with this name is shown: it does not start with `.` or `$`.
pub open spec fn visible_dir_name(name: Seq<char>) -> bool {
    !(name.len() > 0 && (name[0] == '.' || name[0] == '$'))
}

/// Whether a folder with this name counts when looking for subfolders.
pub fn is_visible_dir_name(name: &str) -> (r: bool)
    ensures
        r == visible_dir_name(name@),
{
    let cs = str_to_chars(name);
    !(cs.len() > 0 && (cs[0] == '.' || cs[0] == '$'))
}

/// Whether a folder with this name is listed in the folder tree: it is
/// visible and is not "System Volume Information" (in any ASCII case).
pub fn is_listed_dir_name(name: &str) -> (r: bool)
    ensures
        r == (visible_dir_name(name@) && !eq_ignore_ascii_case(name@, system_volume_information())),
{
    if !is_visible_dir_name(name) {
        return false;
    }
    let cs = str_to_chars(name);
    let svi = str_to_chars("System Volume Information");
    !chars_eq_ignore_ascii_case(cs.as_slice(), svi.as_slice())
}

/// The sort keys of folder names: their lowercase forms.
pub open spec fn dir_name_keys(names: Seq<Seq<char>>) -> Seq<KeyView> {
    names.map_values(|n: Seq<char>| (str_lowercase(n), 0usize))
}

/// The order in which the folder tree lists the folders `names`: by
/// lowercase name, stably.
pub fn dir_name_order(names: &[String]) -> (p: Vec<usize>)
    ensures
        is_stable_order(dir_name_keys(names@.map_values(|s: String| s@)), true, p@),
{
    let ghost nv = names@.map_values(|s: String| s@);
    let mut keys: Vec<SortKey> = Vec::new();
    let mut i: usize = 0;
    while i < names.len()
        invariant
            i <= names@.len(),
            nv == names@.map_values(|s: String| s@),
            key_views(keys@) == dir_name_keys(nv).take(i as int),
        decreases names@.len() - i,
    {
        let lower = str_to_lowercase(names[i].as_str());
        let k = SortKey { text: crate::text::str_to_chars(lower.as_str()), number: 0 };
        let ghost kb = key_views(keys@);
        keys.push(k);
        proof {
            assert(key_views(keys@) =~= kb.push(k@));
            assert(dir_name_keys(nv).take(i + 1) =~= dir_name_keys(nv).take(i as int).push((str_lowercase(nv[i as int]), 0usize)));
        }
        i = i + 1;
    }
    proof {
        assert(dir_name_keys(nv).take(names@.len() as int) =~= dir_name_keys(nv));
    }
    stable_order(keys.as_slice(), true)
}

} // verus!
