use vstd::prelude::*;
use crate::data::{overwrite, read_len, zero_extend};
use crate::efs::EasyFileSystem;
use crate::vfs::{live_names, Inode};

verus! {

/// Creating a name that a directory already holds fails: after a
/// successful `create(name)` the name resolves, so a second `create(name)`
/// returns `None`, and the first added exactly one entry.
pub proof fn lemma_create_twice(fs0: EasyFileSystem, fs1: EasyFileSystem, dir: int, name: Seq<char>, id: int)
    requires
        fs1.created(fs0, dir, name, id),
    ensures
        fs1.dir_lookup(dir, name) is Some,
        fs1.entries(dir).len() == fs0.entries(dir).len() + 1,
{
}

/// After `create(name)` returned a handle on inode `id`, looking `name` up
/// in the same directory gives that same inode id.
pub proof fn lemma_create_then_find(fs0: EasyFileSystem, fs1: EasyFileSystem, dir: int, name: Seq<char>, id: int)
    requires
        fs1.created(fs0, dir, name, id),
    ensures
        fs1.dir_lookup(dir, name) == Some(id as u32),
{
}

/// Writing `payload` at offset 0 of a file and then reading
/// `payload.len()` bytes from offset 0 gives back `payload`, whatever the
/// file held before and however many blocks the payload spans.
pub proof fn lemma_write_then_read(before: Seq<u8>, after: Seq<u8>, new_size: nat, payload: Seq<u8>)
    requires
        new_size >= payload.len(),
        new_size >= before.len(),
        after == overwrite(zero_extend(before, new_size), 0, payload),
    ensures
        read_len(after.len(), 0, payload.len()) == payload.len(),
        after.subrange(0, payload.len() as int) == payload,
{
    assert(after.subrange(0, payload.len() as int) =~= payload);
}

/// After a write of `data` at `offset` into file `i` that had room to grow,
/// a read of `data.len()` bytes from `offset` transfers all of them and
/// gets `data` back, whether the file spans one block or many.
pub proof fn lemma_file_write_then_read(fs0: EasyFileSystem, fs1: EasyFileSystem, i: int, offset: nat, data: Seq<u8>)
    requires
        fs1.content(i) == overwrite(
            zero_extend(fs0.content(i),
                if offset + data.len() <= fs0.inode(i).size { fs0.inode(i).size as nat } else { offset + data.len() }),
            offset as int, data),
    ensures
        read_len(fs1.inode(i).size as nat, offset, data.len()) == data.len(),
        forall|k: int| 0 <= k < data.len() ==> #[trigger] fs1.content(i)[offset + k] == data[k],
{
    assert(fs1.content(i).len() == fs1.inode(i).size);
}

/// After `create_a_hard_link(old, new)`, `new` resolves to the inode that
/// `old` resolves to, that inode's bytes are unchanged, and its link count
/// is one higher.
pub proof fn lemma_link_aliases(
    fs0: EasyFileSystem,
    fs1: EasyFileSystem,
    dir: int,
    old_name: Seq<char>,
    new_name: Seq<char>,
    target: int,
)
    requires
        fs0.wf(),
        fs0.is_dir(dir),
        fs0.dir_lookup(dir, old_name) == Some(target as u32),
        fs1.linked(fs0, dir, new_name, target),
    ensures
        fs1.dir_lookup(dir, new_name) == Some(target as u32),
        fs1.dir_lookup(dir, old_name) == Some(target as u32),
        fs0.is_file(target) ==> fs1.content(target) == fs0.content(target),
        fs1.inode(target).hard_linked == fs0.inode(target).hard_linked + 1,
{
    let es0 = fs0.entries(dir);
    let es1 = fs1.entries(dir);
    assert(old_name.len() > 0);
    let k = choose|k: int| 0 <= k < es0.len() && es0[k].0 == old_name;
    assert(es1[k] == es0[k]);
    let k1 = choose|k: int| 0 <= k < es1.len() && es1[k].0 == old_name;
    assert(fs0.inode_used(dir));
    assert(fs0.inode_wf(dir));
    if k1 < es0.len() && k1 != k {
        assert(fs0.inodes@[dir].entries@[k].name@ != fs0.inodes@[dir].entries@[k1].name@);
    }
    if k1 == es0.len() {
        assert(es1[k1].0 == new_name);
        let kn = choose|kk: int| 0 <= kk < es1.len() && es1[kk].0 == new_name;
        assert(fs1.inode_used(dir));
    }
    if fs0.is_file(target) {
        fs1.lemma_same_data_content(fs0, target);
    }
}

/// Removing the second-to-last link of a file and then its last link
/// releases every data block the file held, so each is free for a later
/// `alloc_data`, frees the file's inode id, and neither name resolves any
/// more.
pub proof fn lemma_last_unlink_frees(
    fs0: EasyFileSystem,
    fs1: EasyFileSystem,
    fs2: EasyFileSystem,
    dir: int,
    name1: Seq<char>,
    name2: Seq<char>,
    target: int,
)
    requires
        fs0.wf(),
        fs1.wf(),
        fs2.wf(),
        fs0.is_file(target),
        fs0.inode(target).hard_linked == 2,
        fs0.is_dir(dir),
        links_counted(fs0, dir),
        fs0.dir_lookup(dir, name1) == Some(target as u32),
        fs1.dir_lookup(dir, name2) == Some(target as u32),
        fs1.unlinked(fs0, dir, name1, target),
        fs2.unlinked(fs1, dir, name2, target),
    ensures
        !fs2.inode_used(target),
        fs1.inode(target).hard_linked == 1,
        fs2.inode(target).hard_linked == 0,
        forall|k: int| 0 <= k < fs0.inode(target).blocks@.len()
            ==> fs2.free_data().contains(#[trigger] fs0.inode(target).blocks@[k] as int),
        fs2.dir_lookup(dir, name1) is None,
        fs2.dir_lookup(dir, name2) is None,
        fs2.content(target).len() == 0,
{
    assert(fs1.is_file(target));
    lemma_unlink_counts_links(fs0, fs1, dir, name1, target);
    assert(fs1.is_dir(dir));
    lemma_unlink_counts_links(fs1, fs2, dir, name2, target);
    assert forall|k: int| 0 <= k < fs0.inode(target).blocks@.len()
        implies fs2.free_data().contains(#[trigger] fs0.inode(target).blocks@[k] as int) by {
        let b = fs0.inode(target).blocks@[k] as int;
        assert(fs1.owns(target, b));
        assert(!fs2.data_used(b));
        assert(fs2.data_bitmap@.len() == fs1.data_bitmap@.len());
        assert(fs1.data_bitmap@.len() == fs0.data_bitmap@.len());
    }
    if name1.len() > 0 && fs2.dir_lookup(dir, name1) is Some {
        let es2 = fs2.entries(dir);
        let k = choose|k: int| 0 <= k < es2.len() && es2[k].0 == name1;
        assert(fs1.entries(dir)[k].0 == name1);
    }
}

/// Once a file is cleared, every read of it transfers zero bytes.
pub proof fn lemma_read_after_clear(fs: EasyFileSystem, i: int, offset: nat, len: nat)
    requires
        fs.content(i).len() == 0,
    ensures
        read_len(fs.inode(i).size as nat, offset, len) == 0,
{
}

/// Appending a live entry appends its name to the listing.
pub proof fn lemma_live_names_push(es: Seq<(Seq<char>, u32)>, e: (Seq<char>, u32))
    requires
        e.0.len() > 0,
    ensures
        live_names(es.push(e)) == live_names(es).push(e.0),
{
    assert(es.push(e).drop_last() =~= es);
}

/// Creating `a`, `b` and `c` in a directory with no live entry lists
/// exactly `a`, `b`, `c`, whatever tombstones earlier deletions left.
pub proof fn lemma_create_three_then_ls(
    fs0: EasyFileSystem,
    fs1: EasyFileSystem,
    fs2: EasyFileSystem,
    fs3: EasyFileSystem,
    dir: int,
    a: Seq<char>,
    b: Seq<char>,
    c: Seq<char>,
    ia: int,
    ib: int,
    ic: int,
)
    requires
        live_names(fs0.entries(dir)) == Seq::<Seq<char>>::empty(),
        fs1.created(fs0, dir, a, ia),
        fs2.created(fs1, dir, b, ib),
        fs3.created(fs2, dir, c, ic),
    ensures
        live_names(fs3.entries(dir)) == seq![a, b, c],
{
    assert(a.len() > 0 && b.len() > 0 && c.len() > 0);
    lemma_live_names_push(fs0.entries(dir), (a, ia as u32));
    lemma_live_names_push(fs1.entries(dir), (b, ib as u32));
    lemma_live_names_push(fs2.entries(dir), (c, ic as u32));
    assert(live_names(fs3.entries(dir)) =~= seq![a, b, c]);
}

/// Two handles resolved from the same name name the same inode, before and
/// after a write through either, so a read through the other gets the
/// bytes that write left.
pub proof fn lemma_handles_share_content(
    fs0: EasyFileSystem,
    fs1: EasyFileSystem,
    dir: int,
    name: Seq<char>,
    h1: Inode,
    h2: Inode,
    offset: nat,
    data: Seq<u8>,
)
    requires
        fs0.wf(),
        fs0.is_dir(dir),
        h1.valid_in(fs0),
        h2.valid_in(fs0),
        fs0.dir_lookup(dir, name) == Some(h1.id(fs0) as u32),
        fs0.dir_lookup(dir, name) == Some(h2.id(fs0) as u32),
        fs1.only_file_changed(fs0, h1.id(fs0)),
    ensures
        h1.id(fs1) == h2.id(fs1),
        fs1.content(h1.id(fs0)) == overwrite(
            zero_extend(fs0.content(h1.id(fs0)),
                if offset + data.len() <= fs0.inode(h1.id(fs0)).size { fs0.inode(h1.id(fs0)).size as nat } else { offset + data.len() }),
            offset as int, data)
            ==> read_len(fs1.inode(h2.id(fs1)).size as nat, offset, data.len()) == data.len()
                && forall|k: int| 0 <= k < data.len() ==> #[trigger] fs1.content(h2.id(fs1))[offset + k] == data[k],
        fs1.content(h1.id(fs1)) == fs1.content(h2.id(fs1)),
        fs1.dir_lookup(dir, name) == fs0.dir_lookup(dir, name),
{
    if dir != h1.id(fs0) {
        assert(fs1.inodes@[dir] == fs0.inodes@[dir]);
    }
    assert(fs1.entries(dir) =~= fs0.entries(dir));
    if fs1.content(h1.id(fs0)) == overwrite(
        zero_extend(fs0.content(h1.id(fs0)),
            if offset + data.len() <= fs0.inode(h1.id(fs0)).size { fs0.inode(h1.id(fs0)).size as nat } else { offset + data.len() }),
        offset as int, data) {
        lemma_file_write_then_read(fs0, fs1, h1.id(fs0), offset, data);
    }
}

/// Number of live entries of `es` that name inode `i`.
pub open spec fn count_links(es: Seq<(Seq<char>, u32)>, i: int) -> nat
    decreases es.len(),
{
    if es.len() == 0 {
        0
    } else {
        count_links(es.drop_last(), i) + if es.last().0.len() > 0 && es.last().1 == i { 1nat } else { 0nat }
    }
}

/// Each file's link count is the number of live entries of directory `dir`
/// that name it, and `dir` is the only directory.
pub open spec fn links_counted(fs: EasyFileSystem, dir: int) -> bool {
    &&& forall|i: int| #[trigger] fs.is_dir(i) ==> i == dir
    &&& forall|i: int| #[trigger] fs.is_file(i) ==> fs.inodes@[i].hard_linked == count_links(fs.entries(dir), i)
}

proof fn lemma_count_push(es: Seq<(Seq<char>, u32)>, e: (Seq<char>, u32), i: int)
    ensures
        count_links(es.push(e), i) == count_links(es, i) + if e.0.len() > 0 && e.1 == i { 1nat } else { 0nat },
{
    assert(es.push(e).drop_last() =~= es);
}

proof fn lemma_count_none(es: Seq<(Seq<char>, u32)>, i: int)
    requires
        forall|k: int| 0 <= k < es.len() && es[k].0.len() > 0 ==> es[k].1 != i,
    ensures
        count_links(es, i) == 0,
    decreases es.len(),
{
    if es.len() > 0 {
        lemma_count_none(es.drop_last(), i);
    }
}

/// Tombstoning the one entry named `name` (at `k0`) takes one link from the
/// inode it named and none from any other.
proof fn lemma_count_tombstone(es0: Seq<(Seq<char>, u32)>, es1: Seq<(Seq<char>, u32)>, name: Seq<char>, k0: int, i: int, n: int)
    requires
        name.len() > 0,
        0 <= k0 < es0.len(),
        es0[k0].0 == name,
        forall|k: int| 0 <= k < es0.len() && k != k0 ==> es0[k].0 != name,
        es1.len() == es0.len(),
        forall|k: int| 0 <= k < es1.len() ==> #[trigger] es1[k]
            == if es0[k].0 == name { (Seq::<char>::empty(), 0u32) } else { es0[k] },
        0 <= n <= es0.len(),
    ensures
        count_links(es1.take(n), i) + (if k0 < n && es0[k0].1 == i { 1nat } else { 0nat })
            == count_links(es0.take(n), i),
    decreases n,
{
    if n > 0 {
        lemma_count_tombstone(es0, es1, name, k0, i, n - 1);
        assert(es0.take(n).drop_last() =~= es0.take(n - 1));
        assert(es1.take(n).drop_last() =~= es1.take(n - 1));
        assert(es0.take(n).last() == es0[n - 1]);
        assert(es1.take(n).last() == es1[n - 1]);
        assert(es1[n - 1] == if es0[n - 1].0 == name { (Seq::<char>::empty(), 0u32) } else { es0[n - 1] });
    }
}

/// Creating a file keeps every file's link count equal to the number of
/// entries that name it: the new file has one link and one entry.
pub proof fn lemma_create_counts_links(fs0: EasyFileSystem, fs1: EasyFileSystem, dir: int, name: Seq<char>, id: int)
    requires
        fs0.wf(),
        links_counted(fs0, dir),
        fs0.is_dir(dir),
        fs1.created(fs0, dir, name, id),
    ensures
        links_counted(fs1, dir),
{
    assert(fs0.inode_used(dir));
    assert(fs0.inode_wf(dir));
    assert(name.len() > 0) by {
        assert(fs1.dir_lookup(dir, name) is Some);
    }
    assert forall|i: int| #[trigger] fs1.is_dir(i) implies i == dir by {
        if i != dir && i != id {
            assert(fs1.inodes@[i] == fs0.inodes@[i]);
            assert(fs0.inode_bitmap@[i]);
            assert(fs0.is_dir(i));
        }
    }
    assert forall|i: int| #[trigger] fs1.is_file(i) implies fs1.inodes@[i].hard_linked == count_links(fs1.entries(dir), i) by {
        lemma_count_push(fs0.entries(dir), (name, id as u32), i);
        if i == id {
            let es = fs0.entries(dir);
            assert forall|k: int| 0 <= k < es.len() && es[k].0.len() > 0 implies es[k].1 != i by {
                assert(fs0.inodes@[dir].entries@[k]@ == es[k]);
            }
            lemma_count_none(es, i);
        } else {
            assert(i != dir);
            assert(fs1.inodes@[i] == fs0.inodes@[i]);
            assert(fs0.inode_bitmap@[i]);
            assert(fs0.is_file(i));
        }
    }
}

/// Adding a hard link keeps every file's link count equal to the number
/// of entries that name it.
pub proof fn lemma_link_counts_links(fs0: EasyFileSystem, fs1: EasyFileSystem, dir: int, name: Seq<char>, target: int)
    requires
        fs0.wf(),
        links_counted(fs0, dir),
        fs0.is_dir(dir),
        0 <= target < fs0.inodes@.len(),
        fs1.linked(fs0, dir, name, target),
    ensures
        links_counted(fs1, dir),
{
    assert(name.len() > 0) by {
        assert(fs1.dir_lookup(dir, name) is Some);
    }
    assert forall|i: int| #[trigger] fs1.is_dir(i) implies i == dir by {
        if i != dir && i != target {
            assert(fs1.inodes@[i] == fs0.inodes@[i]);
            assert(fs0.is_dir(i));
        } else if i == target && i != dir {
            assert(fs0.is_dir(i));
        }
    }
    assert forall|i: int| #[trigger] fs1.is_file(i) implies fs1.inodes@[i].hard_linked == count_links(fs1.entries(dir), i) by {
        lemma_count_push(fs0.entries(dir), (name, target as u32), i);
        if i == target {
            assert(fs0.is_file(i));
        } else {
            assert(i != dir);
            assert(fs1.inodes@[i] == fs0.inodes@[i]);
            assert(fs0.is_file(i));
        }
    }
}

/// Removing a link keeps every file's link count equal to the number of
/// entries that name it.
proof fn lemma_count_zero(es: Seq<(Seq<char>, u32)>, i: int)
    requires
        count_links(es, i) == 0,
    ensures
        forall|k: int| 0 <= k < es.len() && es[k].0.len() > 0 ==> es[k].1 != i,
    decreases es.len(),
{
    if es.len() > 0 {
        lemma_count_zero(es.drop_last(), i);
        assert forall|k: int| 0 <= k < es.len() && es[k].0.len() > 0 implies es[k].1 != i by {
            if k < es.len() - 1 {
                assert(es.drop_last()[k] == es[k]);
            }
        }
    }
}

/// Removing a link keeps every file's link count equal to the number of
/// entries that name it, and removing a file's last link frees its inode.
pub proof fn lemma_unlink_counts_links(fs0: EasyFileSystem, fs1: EasyFileSystem, dir: int, name: Seq<char>, target: int)
    requires
        fs0.wf(),
        links_counted(fs0, dir),
        fs0.is_dir(dir),
        fs0.dir_lookup(dir, name) matches Some(t) && t as int == target,
        fs1.unlinked(fs0, dir, name, target),
    ensures
        links_counted(fs1, dir),
        fs0.is_file(target) && fs0.inode(target).hard_linked == 1 ==> !fs1.inode_used(target),
{
    assert(fs0.inode_used(dir));
    assert(fs0.inode_wf(dir));
    let es0 = fs0.entries(dir);
    let es1 = fs1.entries(dir);
    let k0 = choose|k: int| 0 <= k < es0.len() && es0[k].0 == name;
    assert forall|k: int| 0 <= k < es0.len() && k != k0 implies es0[k].0 != name by {
        assert(fs0.inodes@[dir].entries@[k0]@ == es0[k0]);
        assert(fs0.inodes@[dir].entries@[k]@ == es0[k]);
        assert(fs0.inodes@[dir].entries@[k0].name@ != fs0.inodes@[dir].entries@[k].name@);
    }
    assert(es0[k0].1 == target);
    assert(target != dir ==> fs1.inodes@[dir].type_ == fs0.inodes@[dir].type_);
    assert forall|i: int| #[trigger] fs1.is_dir(i) implies i == dir by {
        if i != dir && i != target {
            assert(fs1.inodes@[i] == fs0.inodes@[i]);
            assert(fs0.is_dir(i));
        } else if i == target && i != dir {
            assert(fs0.is_dir(i));
        }
    }
    assert forall|i: int| #[trigger] fs1.is_file(i) implies fs1.inodes@[i].hard_linked == count_links(es1, i) by {
        lemma_count_tombstone(es0, es1, name, k0, i, es0.len() as int);
        assert(es0.take(es0.len() as int) =~= es0);
        assert(es1.take(es1.len() as int) =~= es1);
        if i == target {
            assert(fs0.is_file(i));
        } else {
            assert(i != dir);
            assert(fs1.inodes@[i] == fs0.inodes@[i]);
            assert(fs0.is_file(i));
        }
    }
    if fs0.is_file(target) && fs0.inode(target).hard_linked == 1 {
        lemma_count_tombstone(es0, es1, name, k0, target, es0.len() as int);
        assert(es0.take(es0.len() as int) =~= es0);
        assert(es1.take(es1.len() as int) =~= es1);
        lemma_count_zero(es1, target);
        if fs1.referenced(target) {
            let (d, k) = choose|d: int, k: int|
                #![trigger fs1.inodes@[d].entries@[k]]
                fs1.inode_used(d) && 0 <= k < fs1.inodes@[d].entries@.len()
                    && !fs1.inodes@[d].entries@[k].is_tombstone()
                    && fs1.inodes@[d].entries@[k].inode_number == target;
            if d == dir {
                assert(fs1.inodes@[dir].entries@[k]@ == es1[k]);
            } else if d == target {
                assert(fs0.inode_used(target));
                assert(fs0.inode_wf(target));
            } else {
                assert(fs1.inodes@[d] == fs0.inodes@[d]);
                assert(fs0.inode_used(d));
                assert(fs0.inode_wf(d));
                assert(!fs0.is_dir(d));
            }
        }
    }
    if fs0.is_file(target) && fs0.inode(target).hard_linked == 1 {
        lemma_count_tombstone(es0, es1, name, k0, target, es0.len() as int);
        assert(es0.take(es0.len() as int) =~= es0);
        assert(es1.take(es1.len() as int) =~= es1);
        lemma_count_zero(es1, target);
        if fs1.referenced(target) {
            let (d, k) = choose|d: int, k: int|
                #![trigger fs1.inodes@[d].entries@[k]]
                fs1.inode_used(d) && 0 <= k < fs1.inodes@[d].entries@.len()
                    && !fs1.inodes@[d].entries@[k].is_tombstone()
                    && fs1.inodes@[d].entries@[k].inode_number == target;
            if d == dir {
                assert(fs1.inodes@[dir].entries@[k]@ == es1[k]);
            } else if d == target {
                assert(fs0.inode_used(target));
                assert(fs0.inode_wf(target));
            } else {
                assert(fs1.inodes@[d] == fs0.inodes@[d]);
                assert(fs0.inode_used(d));
                assert(fs0.inode_wf(d));
                assert(!fs0.is_dir(d));
            }
        }
    }
}

/// A freshly laid out filesystem, whose only inode in use is the root
/// directory, counts links correctly.
pub proof fn lemma_fresh_counts_links(fs: EasyFileSystem)
    requires
        fs.wf(),
        forall|i: int| 0 <= i < fs.inodes@.len() ==> (#[trigger] fs.inode_used(i) <==> i == 0),
    ensures
        links_counted(fs, 0),
{
    assert forall|i: int| #[trigger] fs.is_file(i) implies fs.inodes@[i].hard_linked == count_links(fs.entries(0), i) by {
        assert(fs.inode_used(i));
    }
}

/// A name that resolves names an inode in use.
pub proof fn lemma_lookup_used(fs: EasyFileSystem, dir: int, name: Seq<char>)
    requires
        fs.wf(),
        fs.is_dir(dir),
        fs.dir_lookup(dir, name) is Some,
    ensures
        fs.inode_used(fs.dir_lookup(dir, name)->0 as int),
{
    assert(fs.inode_used(dir));
    assert(fs.inode_wf(dir));
    let es = fs.entries(dir);
    let k = choose|k: int| 0 <= k < es.len() && es[k].0 == name;
    assert(fs.inodes@[dir].entries@[k]@ == es[k]);
}

/// Changing the bytes of one file keeps every link count right.
pub proof fn lemma_file_change_counts_links(fs0: EasyFileSystem, fs1: EasyFileSystem, dir: int, i: int)
    requires
        links_counted(fs0, dir),
        fs0.is_dir(dir),
        fs0.is_file(i),
        fs1.only_file_changed(fs0, i),
    ensures
        links_counted(fs1, dir),
{
    assert(fs1.inodes@[dir] == fs0.inodes@[dir]);
    assert(fs1.entries(dir) =~= fs0.entries(dir));
    assert forall|j: int| #[trigger] fs1.is_dir(j) implies j == dir by {
        if j != i {
            assert(fs1.inodes@[j] == fs0.inodes@[j]);
            assert(fs0.is_dir(j));
        }
    }
    assert forall|j: int| #[trigger] fs1.is_file(j) implies fs1.inodes@[j].hard_linked == count_links(fs1.entries(dir), j) by {
        if j != i {
            assert(fs1.inodes@[j] == fs0.inodes@[j]);
            assert(fs0.is_file(j));
        }
    }
}

} // verus!
