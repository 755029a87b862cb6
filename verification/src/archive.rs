//! The archive of a spirit: which entries go into the `.spirit` file, in
//! which order, and where each file is read from.
//!
//! The spirit directory is walked depth first, in listing order. A directory
//! becomes a directory entry followed by the entries of its contents; a file
//! becomes a file entry. An entry is named by its path below the spirit
//! directory. Walking stops at the first entry that cannot be read or has no
//! UTF-8 name, and at the first directory that cannot be listed.

use vstd::prelude::*;
use crate::text::{chars_of, concat_text};

verus! {

/// One entry met while walking a directory.
pub enum Walked {
    /// The listing failed on this entry.
    Unreadable,
    /// An entry whose path is not a directory, with its file name where it
    /// has one that is valid UTF-8.
    File { name: Option<String> },
    /// A directory, with its file name where it has one that is valid UTF-8,
    /// and its own listing (`None` where it cannot be listed).
    Dir { name: Option<String>, listing: Option<Vec<Walked>> },
}

/// One step of writing the archive.
pub enum ArchiveOp {
    /// Add the directory entry `entry`.
    AddDirectory { entry: String },
    /// Add the file entry `entry`, with the contents of the file at `source`.
    AddFile { entry: String, source: String },
}

/// An archive step as plain sequences (`source` is empty for a directory).
pub struct OpView {
    pub is_dir: bool,
    pub entry: Seq<char>,
    pub source: Seq<char>,
}

/// The view of one archive step.
pub open spec fn op_view(op: ArchiveOp) -> OpView {
    match op {
        ArchiveOp::AddDirectory { entry } => OpView { is_dir: true, entry: entry@, source: Seq::empty() },
        ArchiveOp::AddFile { entry, source } => OpView { is_dir: false, entry: entry@, source: source@ },
    }
}

/// The views of a sequence of archive steps.
pub open spec fn ops_view(ops: Seq<ArchiveOp>) -> Seq<OpView> {
    ops.map_values(|op: ArchiveOp| op_view(op))
}

/// The archive steps for the entries `items` of a directory whose entries are
/// named with the prefix `append` and read from the prefix `root`, and whether
/// all of them could be walked (where not, the steps up to the failure).
pub open spec fn plan_entries(items: Seq<Walked>, append: Seq<char>, root: Seq<char>) -> (Seq<OpView>, bool)
    decreases items,
{
    if items.len() == 0 {
        (Seq::empty(), true)
    } else {
        let (ops, ok) = plan_entries(items.drop_last(), append, root);
        if !ok {
            (ops, false)
        } else {
            let (more, ok2) = plan_entry(items.last(), append, root);
            (ops + more, ok2)
        }
    }
}

/// The archive steps for one entry `w` (see `plan_entries`).
pub open spec fn plan_entry(w: Walked, append: Seq<char>, root: Seq<char>) -> (Seq<OpView>, bool)
    decreases w,
{
    match w {
        Walked::Unreadable => (Seq::empty(), false),
        Walked::File { name } => match name {
            None => (Seq::empty(), false),
            Some(n) => (seq![OpView { is_dir: false, entry: append + n@, source: root + n@ }], true),
        },
        Walked::Dir { name, listing } => match name {
            None => (Seq::empty(), false),
            Some(n) => {
                let head = seq![OpView { is_dir: true, entry: append + n@, source: Seq::empty() }];
                match listing {
                    None => (head, false),
                    Some(v) => {
                        let (ops, ok) = plan_entries(v@, append + n@ + seq!['/'], root + n@ + seq!['/']);
                        (head + ops, ok)
                    },
                }
            },
        },
    }
}

/// The archive steps for a directory listing (`None` where it cannot be listed).
pub open spec fn plan_listing(listing: Option<Seq<Walked>>, append: Seq<char>, root: Seq<char>) -> (Seq<OpView>, bool) {
    match listing {
        None => (Seq::empty(), false),
        Some(items) => plan_entries(items, append, root),
    }
}

/// The view of an optional walked listing.
pub open spec fn walked_view(listing: Option<Vec<Walked>>) -> Option<Seq<Walked>> {
    match listing {
        Some(v) => Some(v@),
        None => None,
    }
}

fn plan_entry_exec(w: &Walked, append: &str, root: &str, out: &mut Vec<ArchiveOp>) -> (ok: bool)
    ensures
        ops_view(final(out)@) == ops_view(old(out)@) + plan_entry(*w, append@, root@).0,
        ok == plan_entry(*w, append@, root@).1,
    decreases *w,
{
    match w {
        Walked::Unreadable => {
            assert(ops_view(out@) =~= ops_view(out@) + Seq::<OpView>::empty());
            false
        },
        Walked::File { name } => match name {
            None => {
                assert(ops_view(out@) =~= ops_view(out@) + Seq::<OpView>::empty());
                false
            },
            Some(n) => {
                let entry = concat_text(append, n.as_str());
                let source = concat_text(root, n.as_str());
                let ghost before = out@;
                out.push(ArchiveOp::AddFile { entry, source });
                assert(ops_view(out@) =~= ops_view(before) + plan_entry(*w, append@, root@).0);
                true
            },
        },
        Walked::Dir { name, listing } => match name {
            None => {
                assert(ops_view(out@) =~= ops_view(out@) + Seq::<OpView>::empty());
                false
            },
            Some(n) => {
                let entry = concat_text(append, n.as_str());
                let ghost before = out@;
                out.push(ArchiveOp::AddDirectory { entry });
                let ghost head = seq![OpView { is_dir: true, entry: append@ + n@, source: Seq::empty() }];
                assert(ops_view(out@) =~= ops_view(before) + head);
                match listing {
                    None => false,
                    Some(v) => {
                        let with_name = concat_text(append, n.as_str());
                        let sub_append = concat_text(with_name.as_str(), "/");
                        let with_root = concat_text(root, n.as_str());
                        let sub_root = concat_text(with_root.as_str(), "/");
                        proof {
                            reveal_strlit("/");
                            assert(sub_append@ =~= append@ + n@ + seq!['/']);
                            assert(sub_root@ =~= root@ + n@ + seq!['/']);
                        }
                        let ok = plan_entries_exec(v, sub_append.as_str(), sub_root.as_str(), out);
                        assert(ops_view(out@) =~= ops_view(before) + plan_entry(*w, append@, root@).0);
                        ok
                    },
                }
            },
        },
    }
}

fn plan_entries_exec(items: &Vec<Walked>, append: &str, root: &str, out: &mut Vec<ArchiveOp>) -> (ok: bool)
    ensures
        ops_view(final(out)@) == ops_view(old(out)@) + plan_entries(items@, append@, root@).0,
        ok == plan_entries(items@, append@, root@).1,
    decreases items@,
{
    let n = items.len();
    let mut i: usize = 0;
    assert(items@.take(0) =~= Seq::<Walked>::empty());
    assert(ops_view(out@) =~= ops_view(old(out)@) + Seq::<OpView>::empty());
    while i < n
        invariant
            n == items@.len(),
            i <= n,
            ops_view(out@) == ops_view(old(out)@) + plan_entries(items@.take(i as int), append@, root@).0,
            plan_entries(items@.take(i as int), append@, root@).1,
        decreases n - i,
    {
        let ghost prefix = items@.take(i as int);
        let ghost next = items@.take(i + 1);
        assert(next.drop_last() =~= prefix);
        assert(next.last() == items@[i as int]);
        assert(decreases_to!(items@ => items@[i as int]));
        let ok = plan_entry_exec(&items[i], append, root, out);
        assert(ops_view(out@) =~= ops_view(old(out)@) + plan_entries(next, append@, root@).0);
        if !ok {
            proof {
                lemma_plan_entries_stops(items@, (i + 1) as int, append@, root@);
            }
            assert(items@.take(n as int) =~= items@);
            return false;
        }
        i += 1;
    }
    assert(items@.take(n as int) =~= items@);
    true
}

/// Once walking fails on a prefix of the entries, the rest add nothing.
proof fn lemma_plan_entries_stops(items: Seq<Walked>, k: int, append: Seq<char>, root: Seq<char>)
    requires
        0 <= k <= items.len(),
        !plan_entries(items.take(k), append, root).1,
    ensures
        plan_entries(items, append, root) == plan_entries(items.take(k), append, root),
    decreases items.len() - k,
{
    if k < items.len() {
        let next = items.take(k + 1);
        assert(next.drop_last() =~= items.take(k));
        lemma_plan_entries_stops(items, k + 1, append, root);
    } else {
        assert(items.take(k) =~= items);
    }
}

/// The steps that write the archive of a directory with the listing
/// `listing`, naming entries with the prefix `append` and reading files from
/// the prefix `src_dir`; and whether the walk went through. Where it did not,
/// the steps are those before the failure.
pub fn compress_plan(listing: &Option<Vec<Walked>>, append: &str, src_dir: &str) -> (res: (Vec<ArchiveOp>, bool))
    ensures
        ops_view(res.0@) == plan_listing(walked_view(*listing), append@, src_dir@).0,
        res.1 == plan_listing(walked_view(*listing), append@, src_dir@).1,
{
    let mut out: Vec<ArchiveOp> = Vec::new();
    assert(ops_view(out@) =~= Seq::<OpView>::empty());
    match listing {
        None => (out, false),
        Some(items) => {
            let ok = plan_entries_exec(items, append, src_dir, &mut out);
            assert(ops_view(out@) =~= plan_entries(items@, append@, src_dir@).0);
            (out, ok)
        },
    }
}

/// Whether an entry can be walked: it was read, it has a UTF-8 name, and,
/// where it is a directory, its listing was read and all its entries can be
/// walked.
pub open spec fn walkable_entry(w: Walked) -> bool
    decreases w,
{
    match w {
        Walked::Unreadable => false,
        Walked::File { name } => name is Some,
        Walked::Dir { name, listing } => name is Some && match listing {
            None => false,
            Some(v) => walkable_entries(v@),
        },
    }
}

/// Whether all of `items` can be walked.
pub open spec fn walkable_entries(items: Seq<Walked>) -> bool
    decreases items,
{
    if items.len() == 0 {
        true
    } else {
        walkable_entries(items.drop_last()) && walkable_entry(items.last())
    }
}

proof fn lemma_walk_outcome_entries(items: Seq<Walked>, append: Seq<char>, root: Seq<char>)
    ensures
        plan_entries(items, append, root).1 == walkable_entries(items),
    decreases items,
{
    if items.len() > 0 {
        lemma_walk_outcome_entries(items.drop_last(), append, root);
        lemma_walk_outcome_entry(items.last(), append, root);
    }
}

proof fn lemma_walk_outcome_entry(w: Walked, append: Seq<char>, root: Seq<char>)
    ensures
        plan_entry(w, append, root).1 == walkable_entry(w),
    decreases w,
{
    match w {
        Walked::Dir { name, listing } => match name {
            Some(n) => match listing {
                Some(v) => {
                    assert(decreases_to!(w => v@));
                    lemma_walk_outcome_entries(v@, append + n@ + seq!['/'], root + n@ + seq!['/']);
                },
                None => {},
            },
            None => {},
        },
        _ => {},
    }
}

/// The walk goes through exactly when every entry of the directory, at every
/// depth, was read and has a UTF-8 name, and every directory among them
/// could be listed. An empty directory can always be walked.
pub proof fn law_walk_succeeds_on_readable_trees(listing: Option<Seq<Walked>>, append: Seq<char>, root: Seq<char>)
    ensures
        plan_listing(listing, append, root).1 == match listing {
            None => false,
            Some(items) => walkable_entries(items),
        },
{
    match listing {
        None => {},
        Some(items) => lemma_walk_outcome_entries(items, append, root),
    }
}

/// A readable, empty directory named `n` becomes one directory entry, and the
/// walk goes through.
pub proof fn law_empty_directory_is_one_entry(n: String, v: Vec<Walked>, append: Seq<char>, root: Seq<char>)
    requires
        v@.len() == 0,
    ensures
        plan_entry(Walked::Dir { name: Some(n), listing: Some(v) }, append, root) == (
            seq![OpView { is_dir: true, entry: append + n@, source: Seq::empty() }],
            true,
        ),
{
    assert(v@ =~= Seq::<Walked>::empty());
    let (ops, ok) = plan_entries(v@, append + n@ + seq!['/'], root + n@ + seq!['/']);
    assert(ok);
    assert(ops =~= Seq::<OpView>::empty());
    assert(seq![OpView { is_dir: true, entry: append + n@, source: Seq::empty() }] + ops =~= seq![
        OpView { is_dir: true, entry: append + n@, source: Seq::empty() },
    ]);
}

/// Whether every step of `ops` names its entry below `append`, and every
/// file step reads its file from the same path below `root`.
pub open spec fn named_below(ops: Seq<OpView>, append: Seq<char>, root: Seq<char>) -> bool {
    forall|i: int|
        0 <= i < ops.len() ==> {
            let op = #[trigger] ops[i];
            &&& append.len() <= op.entry.len()
            &&& op.entry.take(append.len() as int) == append
            &&& !op.is_dir ==> op.source == root + op.entry.skip(append.len() as int)
        }
}

proof fn lemma_named_below_concat(a: Seq<OpView>, b: Seq<OpView>, append: Seq<char>, root: Seq<char>)
    requires
        named_below(a, append, root),
        named_below(b, append, root),
    ensures
        named_below(a + b, append, root),
{
    assert forall|i: int| 0 <= i < (a + b).len() implies {
        let op = #[trigger] (a + b)[i];
        &&& append.len() <= op.entry.len()
        &&& op.entry.take(append.len() as int) == append
        &&& !op.is_dir ==> op.source == root + op.entry.skip(append.len() as int)
    } by {
        if i < a.len() {
            assert((a + b)[i] == a[i]);
        } else {
            assert((a + b)[i] == b[i - a.len()]);
        }
    }
}

/// Steps named below `append + n + "/"` and `root + n + "/"` are named below
/// `append` and `root`.
proof fn lemma_named_below_widen(ops: Seq<OpView>, append: Seq<char>, root: Seq<char>, n: Seq<char>)
    requires
        named_below(ops, append + n + seq!['/'], root + n + seq!['/']),
    ensures
        named_below(ops, append, root),
{
    let sa = append + n + seq!['/'];
    let sr = root + n + seq!['/'];
    assert forall|i: int| 0 <= i < ops.len() implies {
        let op = #[trigger] ops[i];
        &&& append.len() <= op.entry.len()
        &&& op.entry.take(append.len() as int) == append
        &&& !op.is_dir ==> op.source == root + op.entry.skip(append.len() as int)
    } by {
        let op = ops[i];
        let rel = op.entry.skip(sa.len() as int);
        assert(op.entry =~= sa + rel) by {
            assert(op.entry.take(sa.len() as int) == sa);
        }
        assert(op.entry.take(append.len() as int) =~= append);
        assert(op.entry.skip(append.len() as int) =~= n + seq!['/'] + rel);
        if !op.is_dir {
            assert(op.source =~= root + (n + seq!['/'] + rel));
        }
    }
}

/// Every step of the plan of `items` is named below `append` and `root`.
proof fn lemma_plan_entries_named(items: Seq<Walked>, append: Seq<char>, root: Seq<char>)
    ensures
        named_below(plan_entries(items, append, root).0, append, root),
    decreases items,
{
    if items.len() > 0 {
        lemma_plan_entries_named(items.drop_last(), append, root);
        let (ops, ok) = plan_entries(items.drop_last(), append, root);
        if ok {
            lemma_plan_entry_named(items.last(), append, root);
            lemma_named_below_concat(ops, plan_entry(items.last(), append, root).0, append, root);
        }
    }
}

/// Every step of the plan of `w` is named below `append` and `root`.
proof fn lemma_plan_entry_named(w: Walked, append: Seq<char>, root: Seq<char>)
    ensures
        named_below(plan_entry(w, append, root).0, append, root),
    decreases w,
{
    match w {
        Walked::Unreadable => {},
        Walked::File { name } => match name {
            None => {},
            Some(n) => {
                let op = OpView { is_dir: false, entry: append + n@, source: root + n@ };
                assert(op.entry.take(append.len() as int) =~= append);
                assert(op.entry.skip(append.len() as int) =~= n@);
                assert(plan_entry(w, append, root).0 == seq![op]);
            },
        },
        Walked::Dir { name, listing } => match name {
            None => {},
            Some(n) => {
                let op = OpView { is_dir: true, entry: append + n@, source: Seq::empty() };
                let head = seq![op];
                assert(op.entry.take(append.len() as int) =~= append);
                assert(named_below(head, append, root));
                match listing {
                    None => {},
                    Some(v) => {
                        let sa = append + n@ + seq!['/'];
                        let sr = root + n@ + seq!['/'];
                        assert(decreases_to!(w => v@));
                        lemma_plan_entries_named(v@, sa, sr);
                        lemma_named_below_widen(plan_entries(v@, sa, sr).0, append, root, n@);
                        lemma_named_below_concat(head, plan_entries(v@, sa, sr).0, append, root);
                    },
                }
            },
        },
    }
}

/// Each entry of the archive is named by its path below the spirit
/// directory: every step's entry starts with `append`, and every file is read
/// from `src_dir` followed by the rest of its entry name.
pub proof fn law_entries_mirror_the_directory(listing: Option<Seq<Walked>>, append: Seq<char>, src_dir: Seq<char>)
    ensures
        named_below(plan_listing(listing, append, src_dir).0, append, src_dir),
{
    match listing {
        None => {},
        Some(items) => lemma_plan_entries_named(items, append, src_dir),
    }
}

/// Whether two step sequences add the same entries, in the same order.
pub open spec fn same_entries(a: Seq<OpView>, b: Seq<OpView>) -> bool {
    &&& a.len() == b.len()
    &&& forall|i: int|
        0 <= i < a.len() ==> (#[trigger] a[i]).is_dir == b[i].is_dir && a[i].entry == b[i].entry
}

proof fn lemma_same_entries_concat(a1: Seq<OpView>, b1: Seq<OpView>, a2: Seq<OpView>, b2: Seq<OpView>)
    requires
        same_entries(a1, b1),
        same_entries(a2, b2),
    ensures
        same_entries(a1 + a2, b1 + b2),
{
    assert forall|i: int| 0 <= i < (a1 + a2).len() implies (#[trigger] (a1 + a2)[i]).is_dir == (b1
        + b2)[i].is_dir && (a1 + a2)[i].entry == (b1 + b2)[i].entry by {
        if i < a1.len() {
            assert((a1 + a2)[i] == a1[i] && (b1 + b2)[i] == b1[i]);
        } else {
            assert((a1 + a2)[i] == a2[i - a1.len()] && (b1 + b2)[i] == b2[i - a1.len()]);
        }
    }
}

proof fn lemma_plan_entries_root(items: Seq<Walked>, append: Seq<char>, r1: Seq<char>, r2: Seq<char>)
    ensures
        same_entries(plan_entries(items, append, r1).0, plan_entries(items, append, r2).0),
        plan_entries(items, append, r1).1 == plan_entries(items, append, r2).1,
    decreases items,
{
    if items.len() > 0 {
        lemma_plan_entries_root(items.drop_last(), append, r1, r2);
        if plan_entries(items.drop_last(), append, r1).1 {
            lemma_plan_entry_root(items.last(), append, r1, r2);
            lemma_same_entries_concat(
                plan_entries(items.drop_last(), append, r1).0,
                plan_entries(items.drop_last(), append, r2).0,
                plan_entry(items.last(), append, r1).0,
                plan_entry(items.last(), append, r2).0,
            );
        }
    }
}

proof fn lemma_plan_entry_root(w: Walked, append: Seq<char>, r1: Seq<char>, r2: Seq<char>)
    ensures
        same_entries(plan_entry(w, append, r1).0, plan_entry(w, append, r2).0),
        plan_entry(w, append, r1).1 == plan_entry(w, append, r2).1,
    decreases w,
{
    match w {
        Walked::Unreadable => {},
        Walked::File { name } => {},
        Walked::Dir { name, listing } => match name {
            None => {},
            Some(n) => {
                let head1 = seq![OpView { is_dir: true, entry: append + n@, source: Seq::empty() }];
                match listing {
                    None => {},
                    Some(v) => {
                        let sa = append + n@ + seq!['/'];
                        assert(decreases_to!(w => v@));
                        lemma_plan_entries_root(v@, sa, r1 + n@ + seq!['/'], r2 + n@ + seq!['/']);
                        lemma_same_entries_concat(
                            head1,
                            head1,
                            plan_entries(v@, sa, r1 + n@ + seq!['/']).0,
                            plan_entries(v@, sa, r2 + n@ + seq!['/']).0,
                        );
                    },
                }
            },
        },
    }
}

/// The archive does not depend on how the spirit directory is spelled: for
/// the same listing, two spellings `r1` and `r2` of its path give the same
/// entries in the same order, and the same outcome of the walk. With
/// `law_entries_mirror_the_directory`, each file entry is read from the same
/// path below either spelling.
pub proof fn law_entries_ignore_the_root_spelling(
    listing: Option<Seq<Walked>>,
    append: Seq<char>,
    r1: Seq<char>,
    r2: Seq<char>,
)
    ensures
        same_entries(plan_listing(listing, append, r1).0, plan_listing(listing, append, r2).0),
        plan_listing(listing, append, r1).1 == plan_listing(listing, append, r2).1,
{
    match listing {
        None => {},
        Some(items) => lemma_plan_entries_root(items, append, r1, r2),
    }
}

/// The directory that the archive reads from: `dir`, with a `/` added unless
/// it ends in `/` or `\`.
pub open spec fn source_root_of(dir: Seq<char>) -> Seq<char> {
    if dir.len() > 0 && (dir.last() == '/' || dir.last() == '\\') {
        dir
    } else {
        dir + seq!['/']
    }
}

/// The directory that the archive reads from, given the directory named on
/// the command line.
pub fn source_root(dir: &str) -> (res: String)
    ensures
        res@ == source_root_of(dir@),
{
    let v = chars_of(dir);
    let n = v.len();
    if n > 0 && (v[n - 1] == '/' || v[n - 1] == '\\') {
        proof {
            reveal_strlit("");
        }
        assert(dir@ + ""@ =~= dir@);
        concat_text(dir, "")
    } else {
        proof {
            reveal_strlit("/");
        }
        concat_text(dir, "/")
    }
}

} // verus!
