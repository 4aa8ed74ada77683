use vstd::prelude::*;

use crate::hash::{lemma_pow16_positive, pow16, ObjectId};
use crate::rewrites::ChangeKind;

verus! {

/// What the entries of one path in a commit's tree and in its parents' trees
/// say about whether the commit changed that path.
#[derive(Clone, Copy, Debug, PartialEq, Eq, Structural)]
pub enum PathChange {
    /// The commit's tree has no entry at the path.
    Absent,
    /// The commit has no parent: it added the path.
    Added,
    /// A parent has the same content at the path: the commit did not change it.
    Unchanged,
    /// Every parent has other content, or none, at the path: the diff of the
    /// first parent's tree and the commit's tree decides.
    DiffWithFirstParent,
}

/// Classifies a commit for the history of a path, from the entry the
/// commit's tree has at the path and the entry each parent's tree has there.
pub fn path_change_in_commit(entry: Option<ObjectId>, parent_entries: &Vec<Option<ObjectId>>) -> (r: PathChange)
    ensures
        entry is None ==> r == PathChange::Absent,
        entry is Some && parent_entries@.len() == 0 ==> r == PathChange::Added,
        entry is Some && parent_entries@.len() > 0 && parent_entries@.contains(entry) ==> r == PathChange::Unchanged,
        entry is Some && parent_entries@.len() > 0 && !parent_entries@.contains(entry)
            ==> r == PathChange::DiffWithFirstParent,
{
    if entry.is_none() {
        return PathChange::Absent;
    }
    if parent_entries.len() == 0 {
        return PathChange::Added;
    }
    let mut k: usize = 0;
    while k < parent_entries.len()
        invariant
            k <= parent_entries@.len(),
            entry is Some,
            forall|x: int| 0 <= x < k ==> parent_entries@[x] != entry,
        decreases parent_entries@.len() - k,
    {
        if parent_entries[k] == entry {
            assert(parent_entries@[k as int] == entry);
            return PathChange::Unchanged;
        }
        k += 1;
    }
    PathChange::DiffWithFirstParent
}

/// A change of a tree diff that touches `path`: a modification or an
/// addition there.
pub open spec fn is_change_at(c: (ChangeKind, String), path: Seq<char>) -> bool {
    (c.0 == ChangeKind::Modification || c.0 == ChangeKind::Addition) && c.1@ == path
}

/// The records of a tree diff, each a kind and a path, that modify or add
/// `path`, in order.
pub fn changes_at_path(records: &Vec<(ChangeKind, String)>, path: &String) -> (r: Vec<(ChangeKind, String)>)
    ensures
        r@ == records@.filter(|c: (ChangeKind, String)| is_change_at(c, path@)),
{
    let ghost pred = |c: (ChangeKind, String)| is_change_at(c, path@);
    let mut r: Vec<(ChangeKind, String)> = Vec::new();
    let mut k: usize = 0;
    while k < records.len()
        invariant
            k <= records@.len(),
            pred == (|c: (ChangeKind, String)| is_change_at(c, path@)),
            r@ == records@.subrange(0, k as int).filter(pred),
        decreases records@.len() - k,
    {
        let kind = records[k].0;
        let at_path = (kind == ChangeKind::Modification || kind == ChangeKind::Addition) && records[k].1 == *path;
        proof {
            let prefix = records@.subrange(0, k as int + 1);
            assert(prefix.drop_last() =~= records@.subrange(0, k as int));
            assert(prefix.last() == records@[k as int]);
            reveal(Seq::filter);
        }
        if at_path {
            r.push((kind, records[k].1.clone()));
        }
        k += 1;
    }
    assert(records@.subrange(0, records@.len() as int) =~= records@);
    r
}

/// Whether the history of a path keeps a commit: its tree has an entry at
/// the path, and it either has no parent, or no parent has the same entry
/// and the diff from its first parent (`first_parent_records`) modifies or
/// adds the path.
pub fn keeps_commit(
    entry: Option<ObjectId>,
    parent_entries: &Vec<Option<ObjectId>>,
    first_parent_records: &Vec<(ChangeKind, String)>,
    path: &String,
) -> (r: bool)
    ensures
        r == (entry is Some && (parent_entries@.len() == 0 || (!parent_entries@.contains(entry)
            && first_parent_records@.filter(|c: (ChangeKind, String)| is_change_at(c, path@)).len() > 0))),
{
    match path_change_in_commit(entry, parent_entries) {
        PathChange::Absent => false,
        PathChange::Added => true,
        PathChange::Unchanged => false,
        PathChange::DiffWithFirstParent => changes_at_path(first_parent_records, path).len() > 0,
    }
}

/// The lowercase hexadecimal digit of a value below 16, as a byte.
pub open spec fn hex_digit(v: int) -> u8 {
    if v < 10 {
        (48 + v) as u8
    } else {
        (87 + v) as u8
    }
}

/// The leading 8 hexadecimal digits of an identifier.
pub open spec fn short_hex(id: ObjectId) -> Seq<u8> {
    let top = (id.high >> 96u128) as int;
    Seq::new(8, |k: int| hex_digit((top / pow16((7 - k) as nat)) % 16))
}

/// The index of the first line feed in `m` at or after `i`, else its length.
pub open spec fn line_end(m: Seq<u8>, i: int) -> int
    decreases m.len() - i,
{
    if i < 0 || i >= m.len() {
        m.len() as int
    } else if m[i] == 10u8 {
        i
    } else {
        line_end(m, i + 1)
    }
}

/// What stands for a commit message without a line.
pub open spec fn no_message() -> Seq<u8> {
    seq![60u8, 110u8, 111u8, 32u8, 109u8, 101u8, 115u8, 115u8, 97u8, 103u8, 101u8, 62u8]
}

/// The title of a commit message: its first line, without its `\n` or
/// `\r\n` terminator, or `<no message>` for an empty message.
pub open spec fn title(m: Seq<u8>) -> Seq<u8> {
    let e = line_end(m, 0);
    if m.len() == 0 {
        no_message()
    } else if 0 < e < m.len() && m[e - 1] == 13u8 {
        m.subrange(0, e - 1)
    } else {
        m.subrange(0, e)
    }
}

/// The line that the history of a path prints for a commit: the leading 8
/// hexadecimal digits of its id, a space, and the title of its message.
pub fn log_line(id: ObjectId, message: &Vec<u8>) -> (r: Vec<u8>)
    ensures
        r@ == short_hex(id) + seq![32u8] + title(message@),
{
    let h: u128 = id.high;
    assert(h >> 96u128 <= 0xffff_ffffu128) by (bit_vector);
    let top: u32 = (h >> 96u128) as u32;
    let mut r: Vec<u8> = Vec::new();
    let mut div: u32 = 0x1000_0000;
    proof {
        reveal_with_fuel(pow16, 8);
    }
    let mut k: usize = 0;
    while k < 8
        invariant
            k <= 8,
            top as int == (id.high >> 96u128) as int,
            k < 8 ==> div as int == pow16((7 - k) as nat) && div > 0,
            r@ == short_hex(id).subrange(0, k as int),
        decreases 8 - k,
    {
        let v = (top / div) % 16;
        let digit: u8 = if v < 10 {
            48 + v as u8
        } else {
            87 + v as u8
        };
        r.push(digit);
        assert(r@ =~= short_hex(id).subrange(0, k as int + 1));
        if k < 7 {
            let ghost next = pow16((7 - k - 1) as nat);
            assert(pow16((7 - k) as nat) == 16 * next);
            proof {
                lemma_pow16_positive((7 - k - 1) as nat);
                assert((16 * next) / 16 == next) by (nonlinear_arith);
            }
            div = div / 16;
        }
        k += 1;
    }
    assert(r@ =~= short_hex(id));
    r.push(32u8);
    let n = message.len();
    if n == 0 {
        let marker: [u8; 12] = [60, 110, 111, 32, 109, 101, 115, 115, 97, 103, 101, 62];
        let mut j: usize = 0;
        while j < 12
            invariant
                j <= 12,
                marker@ == no_message(),
                r@ == short_hex(id) + seq![32u8] + no_message().subrange(0, j as int),
            decreases 12 - j,
        {
            r.push(marker[j]);
            assert(r@ =~= short_hex(id) + seq![32u8] + no_message().subrange(0, j as int + 1));
            j += 1;
        }
        assert(no_message().subrange(0, 12) =~= no_message());
        return r;
    }
    let mut e: usize = 0;
    while e < n && message[e] != 10u8
        invariant
            n == message@.len(),
            e <= n,
            line_end(message@, 0) == line_end(message@, e as int),
        decreases n - e,
    {
        e += 1;
    }
    let end = if e > 0 && e < n && message[e - 1] == 13u8 {
        e - 1
    } else {
        e
    };
    let ghost head = r@;
    let mut j: usize = 0;
    while j < end
        invariant
            end <= n,
            n == message@.len(),
            j <= end,
            r@ == head + message@.subrange(0, j as int),
        decreases end - j,
    {
        r.push(message[j]);
        assert(r@ =~= head + message@.subrange(0, j as int + 1));
        j += 1;
    }
    r
}

} // verus!
