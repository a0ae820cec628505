//! Unix paths as byte strings.
//!
//! A path is the sequence of bytes the operating system sees. The separator is
//! the byte `/`; no other byte has a meaning here.

use vstd::prelude::*;
use vstd::string::StringSliceAdditionalSpecFns;

verus! {

/// The byte that separates the components of a path.
pub const SEPARATOR: u8 = 47;

/// `comp` adjoined to `base`: an absolute `comp` replaces `base`; otherwise it
/// is appended, with one separator in between unless `base` is empty or already
/// ends in one.
pub open spec fn join_spec(base: Seq<u8>, comp: Seq<u8>) -> Seq<u8> {
    if comp.len() > 0 && comp[0] == SEPARATOR {
        comp
    } else if base.len() == 0 || base[base.len() - 1] == SEPARATOR {
        base + comp
    } else {
        base + seq![SEPARATOR] + comp
    }
}

/// Whether `name` can be the name of a directory entry: not empty and without
/// a separator in it.
pub open spec fn is_name(name: Seq<u8>) -> bool {
    name.len() > 0 && forall|i: int| 0 <= i < name.len() ==> name[i] != SEPARATOR
}

/// Whether `name` can be archived as the name of a directory entry: a name
/// other than `.` and `..`, which would lead out of the directory that lists
/// them.
pub open spec fn is_entry_name(name: Seq<u8>) -> bool {
    is_name(name) && name != seq![DOT] && name != seq![DOT, DOT]
}

/// The byte `.`.
pub const DOT: u8 = 46;

/// Tells whether `name` can be archived as the name of a directory entry.
pub fn check_entry_name(name: &[u8]) -> (ok: bool)
    ensures
        ok == is_entry_name(name@),
{
    if name.len() == 0 {
        return false;
    }
    if name.len() == 1 && name[0] == DOT {
        proof {
            assert(name@ =~= seq![DOT]);
        }
        return false;
    }
    if name.len() == 2 && name[0] == DOT && name[1] == DOT {
        proof {
            assert(name@ =~= seq![DOT, DOT]);
        }
        return false;
    }
    proof {
        assert(name@ != seq![DOT]) by {
            if name@ == seq![DOT] {
                assert(seq![DOT].len() == 1);
                assert(seq![DOT][0] == DOT);
            }
        }
        assert(name@ != seq![DOT, DOT]) by {
            if name@ == seq![DOT, DOT] {
                assert(seq![DOT, DOT].len() == 2);
                assert(seq![DOT, DOT][0] == DOT);
                assert(seq![DOT, DOT][1] == DOT);
            }
        }
    }
    let mut i: usize = 0;
    while i < name.len()
        invariant
            i <= name.len(),
            forall|k: int| 0 <= k < i ==> name@[k] != SEPARATOR,
        decreases name.len() - i,
    {
        if name[i] == SEPARATOR {
            return false;
        }
        i = i + 1;
    }
    true
}

/// A copy of `bytes`.
pub fn copy_bytes(bytes: &[u8]) -> (copy: Vec<u8>)
    ensures
        copy@ == bytes@,
{
    let mut copy: Vec<u8> = Vec::new();
    push_bytes(&mut copy, bytes);
    proof {
        assert(copy@ =~= bytes@);
    }
    copy
}

/// Tells whether `a` and `b` hold the same bytes.
pub fn same_bytes(a: &[u8], b: &[u8]) -> (same: bool)
    ensures
        same == (a@ == b@),
{
    if a.len() != b.len() {
        return false;
    }
    let mut i: usize = 0;
    while i < a.len()
        invariant
            i <= a.len(),
            a.len() == b.len(),
            forall|k: int| 0 <= k < i ==> a@[k] == b@[k],
        decreases a.len() - i,
    {
        if a[i] != b[i] {
            return false;
        }
        i = i + 1;
    }
    proof {
        assert(a@ =~= b@);
    }
    true
}

/// What follows the last separator of `text`, or all of `text` where it
/// holds none.
pub open spec fn last_segment(text: Seq<u8>) -> Seq<u8>
    decreases text.len(),
{
    if text.len() == 0 || text.last() == SEPARATOR {
        Seq::empty()
    } else {
        last_segment(text.drop_last()).push(text.last())
    }
}

/// The last segment of `text` is what follows position `cut`, where no
/// separator stands from `cut` on and one stands just before it, or `cut`
/// is the start.
proof fn lemma_last_segment(text: Seq<u8>, cut: int)
    requires
        0 <= cut <= text.len(),
        forall|k: int| cut <= k < text.len() ==> text[k] != SEPARATOR,
        cut == 0 || text[cut - 1] == SEPARATOR,
    ensures
        last_segment(text) == text.subrange(cut, text.len() as int),
    decreases text.len(),
{
    if text.len() == cut {
        assert(text.subrange(cut, text.len() as int) =~= Seq::<u8>::empty());
    } else {
        let shorter = text.drop_last();
        lemma_last_segment(shorter, cut);
        assert(shorter.subrange(cut, shorter.len() as int).push(text.last()) =~= text.subrange(
            cut,
            text.len() as int,
        ));
    }
}

/// What follows the last separator of `text`.
pub fn file_name(text: &[u8]) -> (name: Vec<u8>)
    ensures
        name@ == last_segment(text@),
{
    let mut cut: usize = text.len();
    while cut > 0 && text[cut - 1] != SEPARATOR
        invariant
            cut <= text.len(),
            forall|k: int| cut <= k < text.len() ==> text@[k] != SEPARATOR,
        decreases cut,
    {
        cut = cut - 1;
    }
    let mut name: Vec<u8> = Vec::new();
    let mut i: usize = cut;
    while i < text.len()
        invariant
            cut <= i <= text.len(),
            name@ == text@.subrange(cut as int, i as int),
        decreases text.len() - i,
    {
        name.push(text[i]);
        i = i + 1;
        proof {
            assert(name@ =~= text@.subrange(cut as int, i as int));
        }
    }
    proof {
        lemma_last_segment(text@, cut as int);
    }
    name
}

/// The bytes of `text`.
pub fn bytes_of(text: &str) -> (bytes: Vec<u8>)
    ensures
        bytes@ == text.spec_bytes(),
{
    copy_bytes(text.as_bytes())
}

/// Appends the bytes of `tail` to `out`.
pub fn push_bytes(out: &mut Vec<u8>, tail: &[u8])
    ensures
        final(out)@ == old(out)@ + tail@,
{
    let ghost before = out@;
    let mut i: usize = 0;
    while i < tail.len()
        invariant
            i <= tail.len(),
            out@ == before + tail@.subrange(0, i as int),
        decreases tail.len() - i,
    {
        out.push(tail[i]);
        i = i + 1;
        proof {
            assert(out@ =~= before + tail@.subrange(0, i as int));
        }
    }
    proof {
        assert(tail@.subrange(0, tail.len() as int) =~= tail@);
    }
}

/// Adjoins `comp` to `base`.
pub fn join(base: &[u8], comp: &[u8]) -> (joined: Vec<u8>)
    ensures
        joined@ == join_spec(base@, comp@),
{
    let mut joined: Vec<u8> = Vec::new();
    if comp.len() > 0 && comp[0] == SEPARATOR {
        push_bytes(&mut joined, comp);
    } else {
        push_bytes(&mut joined, base);
        if base.len() > 0 && base[base.len() - 1] != SEPARATOR {
            joined.push(SEPARATOR);
        }
        push_bytes(&mut joined, comp);
    }
    proof {
        assert(joined@ =~= join_spec(base@, comp@));
    }
    joined
}

} // verus!
