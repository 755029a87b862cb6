//! The layout of a spirit directory: what its top level may hold, how many
//! frames an action directory holds, and the spirit's name.

use vstd::prelude::*;
use vstd::utf8::{decode_utf8, valid_utf8};

verus! {

/// One entry of a directory listing.
pub enum ListedEntry {
    /// The listing failed on this entry.
    Unreadable,
    /// An entry: its file name where it has one that is valid UTF-8, and
    /// whether its path is a directory or a file.
    Entry { name: Option<String>, is_dir: bool, is_file: bool },
}

/// Whether an entry may stand at the top level of a spirit directory: only
/// `audio/` and `actions/` (directories) and `meta.json` (a file). An entry
/// without a UTF-8 name is none of these.
pub open spec fn top_entry_ok(e: ListedEntry) -> bool {
    match e {
        ListedEntry::Unreadable => false,
        ListedEntry::Entry { name, is_dir, is_file } => match name {
            None => false,
            Some(n) => (n@ == "audio"@ && is_dir) || (n@ == "actions"@ && is_dir) || (n@
                == "meta.json"@ && is_file),
        },
    }
}

/// Whether a spirit directory has the required structure, given whether its
/// path is a directory and its listing (`None` where it cannot be listed).
pub open spec fn structure_ok(root_is_dir: bool, listing: Option<Seq<ListedEntry>>) -> bool {
    match listing {
        None => false,
        Some(entries) => root_is_dir && top_entries_ok(entries),
    }
}

/// Whether every entry of a top-level listing may stand there.
pub open spec fn top_entries_ok(entries: Seq<ListedEntry>) -> bool {
    forall|i: int| 0 <= i < entries.len() ==> top_entry_ok(#[trigger] entries[i])
}

/// The view of an optional listing.
pub open spec fn listing_view(listing: Option<Vec<ListedEntry>>) -> Option<Seq<ListedEntry>> {
    match listing {
        Some(v) => Some(v@),
        None => None,
    }
}

/// Checks the top level of a spirit directory.
pub fn validate_directory_structure(root_is_dir: bool, listing: &Option<Vec<ListedEntry>>) -> (res: bool)
    ensures
        res == structure_ok(root_is_dir, listing_view(*listing)),
{
    let entries = match listing {
        Some(v) => v,
        None => {
            return false;
        },
    };
    if !root_is_dir {
        return false;
    }
    let n = entries.len();
    let mut i: usize = 0;
    while i < n
        invariant
            n == entries@.len(),
            listing_view(*listing) == Some(entries@),
            root_is_dir,
            i <= n,
            forall|k: int| 0 <= k < i ==> top_entry_ok(#[trigger] entries@[k]),
        decreases n - i,
    {
        match &entries[i] {
            ListedEntry::Unreadable => {
                assert(!top_entry_ok(entries@[i as int]));
                return false;
            },
            ListedEntry::Entry { name, is_dir, is_file } => match name {
                None => {
                    assert(!top_entry_ok(entries@[i as int]));
                    return false;
                },
                Some(n) => {
                    let v = n.as_str();
                    let ok = (crate::text::text_eq(v, "audio") && *is_dir) || (
                    crate::text::text_eq(v, "actions") && *is_dir) || (crate::text::text_eq(
                        v,
                        "meta.json",
                    ) && *is_file);
                    if !ok {
                        assert(!top_entry_ok(entries@[i as int]));
                        return false;
                    }
                },
            },
        }
        i += 1;
    }
    true
}

/// Whether an entry of an action directory is a frame: a file.
pub open spec fn is_frame(e: ListedEntry) -> bool {
    match e {
        ListedEntry::Unreadable => false,
        ListedEntry::Entry { is_file, .. } => is_file,
    }
}

/// The number of frames of an action directory, given its listing: `None`
/// where it cannot be listed or holds anything that is not a file.
pub open spec fn frame_count_of(listing: Option<Seq<ListedEntry>>) -> Option<int> {
    match listing {
        None => None,
        Some(entries) => if forall|i: int| 0 <= i < entries.len() ==> is_frame(#[trigger] entries[i]) {
            Some(entries.len() as int)
        } else {
            None
        },
    }
}

/// Counts the frames of an action directory.
pub fn get_frame_count(listing: &Option<Vec<ListedEntry>>) -> (res: Option<i32>)
    requires
        listing matches Some(v) ==> v@.len() <= i32::MAX,
    ensures
        match frame_count_of(listing_view(*listing)) {
            Some(c) => res == Some(c as i32),
            None => res is None,
        },
{
    let entries = match listing {
        Some(v) => v,
        None => {
            return None;
        },
    };
    let n = entries.len();
    let mut count: i32 = 0;
    let mut i: usize = 0;
    while i < n
        invariant
            n == entries@.len(),
            listing_view(*listing) == Some(entries@),
            n <= i32::MAX,
            i <= n,
            count == i,
            forall|k: int| 0 <= k < i ==> is_frame(#[trigger] entries@[k]),
        decreases n - i,
    {
        match &entries[i] {
            ListedEntry::Unreadable => {
                return None;
            },
            ListedEntry::Entry { is_file, .. } => {
                if !*is_file {
                    return None;
                }
            },
        }
        count += 1;
        i += 1;
    }
    Some(count)
}

/// An accepted top level holds only `audio/` and `actions/`, as
/// directories, and `meta.json`, as a file: every entry has one of these
/// three names, with that kind, and the root is a directory.
pub proof fn law_accepted_top_level_has_only_the_three_entries(root_is_dir: bool, entries: Seq<ListedEntry>, i: int)
    requires
        structure_ok(root_is_dir, Some(entries)),
        0 <= i < entries.len(),
    ensures
        root_is_dir,
        entries[i] matches ListedEntry::Entry { name, is_dir, is_file } && name matches Some(n) && (
        (n@ == "audio"@ && is_dir) || (n@ == "actions"@ && is_dir) || (n@ == "meta.json"@
            && is_file)),
{
    assert(top_entry_ok(entries[i]));
}

/// A top level made of `audio/`, `actions/` (directories) and `meta.json` (a
/// file), in any number and order, is accepted.
pub proof fn law_spirit_layout_is_accepted(entries: Seq<ListedEntry>)
    requires
        forall|i: int|
            0 <= i < entries.len() ==> (#[trigger] entries[i] matches ListedEntry::Entry {
                name,
                is_dir,
                is_file,
            } && name matches Some(n) && ((n@ == "audio"@ && is_dir) || (n@ == "actions"@
                && is_dir) || (n@ == "meta.json"@ && is_file))),
    ensures
        structure_ok(true, Some(entries)),
{
    assert forall|i: int| 0 <= i < entries.len() implies top_entry_ok(#[trigger] entries[i]) by {
        assert(entries[i] matches ListedEntry::Entry { .. });
    }
}

/// A counted action directory holds only files, and the count is the number
/// of its entries; a listing with anything other than a file counts nothing.
pub proof fn law_frames_are_the_files(entries: Seq<ListedEntry>, i: int)
    requires
        0 <= i < entries.len(),
    ensures
        frame_count_of(Some(entries)) matches Some(c) ==> (c == entries.len() && (entries[i] matches ListedEntry::Entry { is_file, .. } && is_file)),
        !(entries[i] matches ListedEntry::Entry { is_file, .. } && is_file) ==> frame_count_of(Some(entries)) is None,
{
    if !(entries[i] matches ListedEntry::Entry { is_file, .. } && is_file) {
        assert(!is_frame(entries[i]));
    }
}

/// The byte of `/`, which separates path components.
pub const SLASH: u8 = 47;

/// The byte of `.`.
pub const DOT: u8 = 46;

/// Where the last segment of `s` (after its last `/`) starts.
pub open spec fn segment_start(s: Seq<u8>) -> int
    decreases s.len(),
{
    if s.len() == 0 {
        0
    } else if s.last() == SLASH {
        s.len() as int
    } else {
        segment_start(s.drop_last())
    }
}

/// The last segment starts within `s`, and before its end when `s` does not
/// end in `/`.
pub proof fn lemma_segment_start(s: Seq<u8>)
    ensures
        0 <= segment_start(s) <= s.len(),
        s.len() > 0 && s.last() != SLASH ==> segment_start(s) < s.len(),
    decreases s.len(),
{
    if s.len() > 0 && s.last() != SLASH {
        lemma_segment_start(s.drop_last());
    }
}

/// The last segment of `s` starts at `k` when `k` follows a `/` (or is 0)
/// and no `/` stands from `k` on.
proof fn lemma_segment_start_at(s: Seq<u8>, k: int)
    requires
        0 <= k <= s.len(),
        k == 0 || s[k - 1] == SLASH,
        forall|i: int| k <= i < s.len() ==> s[i] != SLASH,
    ensures
        segment_start(s) == k,
    decreases s.len(),
{
    if s.len() > k {
        let t = s.drop_last();
        assert forall|i: int| k <= i < t.len() implies t[i] != SLASH by {
            assert(t[i] == s[i]);
        }
        lemma_segment_start_at(t, k);
    } else if k > 0 {
        assert(s.last() == SLASH);
    }
}

/// What `Path::file_name` gives for the path whose bytes are `s` (with `/` as
/// the separator): its last component, unless
/// that is `..` or there is none (trailing `/` and `.` components are passed
/// over, as `Path` normalizes them away).
pub open spec fn file_name_of(s: Seq<u8>) -> Option<Seq<u8>>
    decreases s.len(),
{
    if s.len() == 0 {
        None
    } else if s.last() == SLASH {
        file_name_of(s.drop_last())
    } else {
        let k = segment_start(s);
        let seg = s.skip(k);
        if seg == seq![DOT] {
            if k <= 0 {
                None
            } else {
                proof {
                    lemma_segment_start(s);
                }
                file_name_of(s.take(k))
            }
        } else if seg == seq![DOT, DOT] {
            None
        } else {
            Some(seg)
        }
    }
}

/// `String::from_utf8`: the text that `bytes` encode, or `None` where they
/// are not valid UTF-8. Claimed: the result is `Some` exactly when vstd's
/// `valid_utf8` holds of the bytes, and then holds `decode_utf8` of them.
#[verifier::external_body]
fn utf8_string(bytes: Vec<u8>) -> (res: Option<String>)
    ensures
        res is Some <==> valid_utf8(bytes@),
        res matches Some(s) ==> s@ == decode_utf8(bytes@),
{
    String::from_utf8(bytes).ok()
}

/// The name of a spirit: the last component of the canonical path of its
/// directory (given as the bytes of the path), where that is valid UTF-8.
pub fn get_directory_name(canonical_path: &[u8]) -> (res: Option<String>)
    ensures
        match file_name_of(canonical_path@) {
            Some(n) => if valid_utf8(n) {
                res matches Some(r) && r@ == decode_utf8(n)
            } else {
                res is None
            },
            None => res is None,
        },
{
    let n = canonical_path.len();
    let mut end: usize = n;
    assert(canonical_path@.take(end as int) =~= canonical_path@);
    loop
        invariant
            n == canonical_path@.len(),
            end <= n,
            file_name_of(canonical_path@) == file_name_of(canonical_path@.take(end as int)),
        decreases end,
    {
        let ghost s = canonical_path@.take(end as int);
        if end == 0 {
            return None;
        }
        if canonical_path[end - 1] == SLASH {
            assert(s.drop_last() =~= canonical_path@.take(end - 1));
            end -= 1;
            continue;
        }
        let mut start: usize = end;
        while start > 0 && canonical_path[start - 1] != SLASH
            invariant
                start <= end <= n,
                n == canonical_path@.len(),
                0 < end,
                forall|i: int| start <= i < end ==> canonical_path@[i] != SLASH,
            decreases start,
        {
            start -= 1;
        }
        proof {
            lemma_segment_start_at(s, start as int);
        }
        let seg_len = end - start;
        let ghost seg = s.skip(start as int);
        assert(seg =~= canonical_path@.subrange(start as int, end as int));
        if seg_len == 1 && canonical_path[start] == DOT {
            assert(seg =~= seq![DOT]);
            if start == 0 {
                return None;
            }
            assert(s.take(start as int) =~= canonical_path@.take(start as int));
            end = start;
            continue;
        }
        if seg_len == 2 && canonical_path[start] == DOT && canonical_path[start + 1] == DOT {
            assert(seg =~= seq![DOT, DOT]);
            return None;
        }
        assert(seg != seq![DOT]) by {
            if seg_len == 1 {
                assert(seg[0] != DOT);
            }
        }
        assert(seg != seq![DOT, DOT]) by {
            if seg_len == 2 {
                assert(seg[0] != DOT || seg[1] != DOT);
            }
        }
        let mut name: Vec<u8> = Vec::new();
        let mut i = start;
        while i < end
            invariant
                start <= i <= end <= n,
                n == canonical_path@.len(),
                name@ == canonical_path@.subrange(start as int, i as int),
            decreases end - i,
        {
            name.push(canonical_path[i]);
            assert(canonical_path@.subrange(start as int, i + 1) =~= canonical_path@.subrange(start as int, i as int).push(canonical_path@[i as int]));
            i += 1;
        }
        return utf8_string(name);
    }
}

/// A spirit is named after its directory: for a path that ends in `/<name>`,
/// where `name` is a plain component (not empty, no `/`, neither `.` nor
/// `..`), the name is `name`.
pub proof fn law_name_is_last_component(dir: Seq<u8>, name: Seq<u8>)
    requires
        name.len() > 0,
        forall|i: int| 0 <= i < name.len() ==> name[i] != SLASH,
        name != seq![DOT],
        name != seq![DOT, DOT],
    ensures
        file_name_of(dir + seq![SLASH] + name) == Some(name),
{
    let s = dir + seq![SLASH] + name;
    let k: int = dir.len() as int + 1;
    assert(s[k - 1] == SLASH);
    assert forall|i: int| k <= i < s.len() implies s[i] != SLASH by {
        assert(s[i] == name[i - k]);
    }
    lemma_segment_start_at(s, k);
    assert(s.skip(k) =~= name);
    assert(s.last() == name.last());
}

} // verus!
