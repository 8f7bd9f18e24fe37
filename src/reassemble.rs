//! Ordering the encoded segments by index and writing the concatenation list.
use vstd::prelude::*;
use crate::decimal::{
    all_digits, digits_number, digits_value, find_byte, first_index, lemma_digits_value_nonneg,
};

verus! {

/// The segment index that a file name carries: the decimal digits before
/// its first point (`00003.opus` carries 3).
pub open spec fn index_of_name(s: Seq<u8>) -> Option<int> {
    let d = first_index(s, 46);
    if d >= 1 && all_digits(s.take(d)) && digits_value(s.take(d)) <= usize::MAX {
        Some(digits_value(s.take(d)))
    } else {
        None
    }
}

/// Reads the segment index from a file name; `None` where the name does not
/// start with digits up to its first point, or the number is too large.
pub fn segment_index(name: &[u8]) -> (r: Option<usize>)
    ensures
        r matches Some(i) ==> index_of_name(name@) == Some(i as int),
        r is None ==> index_of_name(name@) is None,
{
    let d = find_byte(name, 46);
    assert(name@.take(d as int) =~= name@.subrange(0, d as int));
    if d == 0 {
        return None;
    }
    match digits_number(name, 0, d) {
        Some(v) => {
            proof {
                lemma_digits_value_nonneg(name@.take(d as int));
            }
            if v <= usize::MAX as u64 {
                Some(v as usize)
            } else {
                None
            }
        },
        None => None,
    }
}

/// Why the segment outputs cannot be put together.
#[derive(Debug, Clone, Copy, PartialEq, Eq, Structural)]
pub enum ReassemblyError {
    /// The name at this position of the listing carries no index.
    UnrecognizedName(usize),
    /// A name carries this index, which is not below the segment count.
    OutOfRange(usize),
    /// Two names carry this index.
    Duplicate(usize),
    /// No name carries this index.
    Missing(usize),
}

/// The index that the name at position `p` of the listing carries.
pub open spec fn carried(names: Seq<Vec<u8>>, p: int) -> Option<int> {
    index_of_name(names[p]@)
}

/// The name at position `p` carries an index below `n` that no earlier name
/// carries.
pub open spec fn sound_at(names: Seq<Vec<u8>>, n: int, p: int) -> bool {
    &&& carried(names, p) is Some
    &&& carried(names, p)->0 < n
    &&& forall|q: int| 0 <= q < p ==> carried(names, q) != carried(names, p)
}

/// The error for the name at position `p`, where it is not sound.
pub open spec fn fault_at(names: Seq<Vec<u8>>, n: int, p: int) -> ReassemblyError {
    match carried(names, p) {
        None => ReassemblyError::UnrecognizedName(p as usize),
        Some(i) => if i >= n {
            ReassemblyError::OutOfRange(i as usize)
        } else {
            ReassemblyError::Duplicate(i as usize)
        },
    }
}

/// Some name of the listing carries index `i`.
pub open spec fn is_carried(names: Seq<Vec<u8>>, i: int) -> bool {
    exists|p: int| 0 <= p < names.len() && carried(names, p) == Some(i)
}

/// What putting `n` segments in order yields on the listing `names`: for
/// each index, the position of the name that carries it; else the error of
/// the first unsound name, or, where all are sound, the lowest index that
/// none carries.
pub open spec fn ordering_outcome(
    names: Seq<Vec<u8>>,
    n: int,
    r: Result<Vec<usize>, ReassemblyError>,
) -> bool {
    match r {
        Ok(order) => {
            &&& order@.len() == n
            &&& forall|p: int| 0 <= p < names.len() ==> sound_at(names, n, p)
            &&& forall|i: int|
                0 <= i < n ==> #[trigger] order@[i] < names.len() && carried(names, order@[i] as int)
                    == Some(i)
        },
        Err(ReassemblyError::Missing(i)) => {
            &&& forall|p: int| 0 <= p < names.len() ==> sound_at(names, n, p)
            &&& 0 <= i < n
            &&& !is_carried(names, i as int)
            &&& forall|j: int| 0 <= j < i ==> is_carried(names, j)
        },
        Err(e) => exists|p: int|
            {
                &&& 0 <= p < names.len()
                &&& forall|q: int| 0 <= q < p ==> sound_at(names, n, q)
                &&& !sound_at(names, n, p)
                &&& e == fault_at(names, n, p)
            },
    }
}

/// Puts `expected` segment outputs in index order: entry `i` of the result
/// is the position in `names` of the name that carries index `i`. Fails on
/// a name without an index, an index out of range, a duplicate or a gap.
pub fn order_segments(names: &Vec<Vec<u8>>, expected: usize) -> (r: Result<Vec<usize>, ReassemblyError>)
    ensures
        ordering_outcome(names@, expected as int, r),
{
    let len = names.len();
    let mut slots: Vec<usize> = vec![len; expected];
    let mut p: usize = 0;
    while p < len
        invariant
            len == names@.len(),
            p <= len,
            slots@.len() == expected,
            forall|q: int| 0 <= q < p ==> sound_at(names@, expected as int, q),
            forall|i: int|
                0 <= i < expected ==> {
                    ||| (#[trigger] slots@[i] < p && carried(names@, slots@[i] as int) == Some(i))
                    ||| (slots@[i] == len && forall|q: int|
                        0 <= q < p ==> carried(names@, q) != Some(i))
                },
        decreases len - p,
    {
        match segment_index(names[p].as_slice()) {
            None => {
                assert(!sound_at(names@, expected as int, p as int));
                return Err(ReassemblyError::UnrecognizedName(p));
            },
            Some(i) => {
                if i >= expected {
                    assert(!sound_at(names@, expected as int, p as int));
                    return Err(ReassemblyError::OutOfRange(i));
                }
                if slots[i] != len {
                    assert(carried(names@, slots@[i as int] as int) == carried(names@, p as int));
                    assert(!sound_at(names@, expected as int, p as int));
                    return Err(ReassemblyError::Duplicate(i));
                }
                slots.set(i, p);
            },
        }
        p = p + 1;
    }
    let mut i: usize = 0;
    while i < expected
        invariant
            len == names@.len(),
            slots@.len() == expected,
            i <= expected,
            forall|q: int| 0 <= q < len ==> sound_at(names@, expected as int, q),
            forall|k: int|
                0 <= k < expected ==> {
                    ||| (#[trigger] slots@[k] < len && carried(names@, slots@[k] as int) == Some(k))
                    ||| (slots@[k] == len && forall|q: int|
                        0 <= q < len ==> carried(names@, q) != Some(k))
                },
            forall|j: int| 0 <= j < i ==> slots@[j] < len,
        decreases expected - i,
    {
        if slots[i] == len {
            assert forall|j: int| 0 <= j < i implies is_carried(names@, j) by {
                assert(slots@[j] < len);
                assert(carried(names@, slots@[j] as int) == Some(j));
            }
            return Err(ReassemblyError::Missing(i));
        }
        i = i + 1;
    }
    Ok(slots)
}

/// The text that opens each line of the concatenation list.
pub const LINE_PREFIX: &'static str = "file 'conc/";

/// The text that closes each line of the concatenation list.
pub const LINE_SUFFIX: &'static str = "'\n";

/// The bytes of `LINE_PREFIX`.
pub open spec fn line_prefix() -> Seq<u8> {
    seq![102u8, 105, 108, 101, 32, 39, 99, 111, 110, 99, 47]
}

/// The bytes of `LINE_SUFFIX`.
pub open spec fn line_suffix() -> Seq<u8> {
    seq![39u8, 10]
}

/// One line of the concatenation list: the file, quoted, under `conc/`.
pub open spec fn manifest_line(name: Seq<u8>) -> Seq<u8> {
    line_prefix() + name + line_suffix()
}

/// The concatenation list of the files `names`, one line each, in order.
pub open spec fn manifest_text(names: Seq<Seq<u8>>) -> Seq<u8>
    decreases names.len(),
{
    if names.len() == 0 {
        Seq::empty()
    } else {
        manifest_text(names.drop_last()) + manifest_line(names.last())
    }
}

/// Appends `s` to `out`.
fn push_all(out: &mut Vec<u8>, s: &[u8])
    ensures
        final(out)@ == old(out)@ + s@,
{
    let mut i: usize = 0;
    while i < s.len()
        invariant
            i <= s@.len(),
            out@ == old(out)@ + s@.take(i as int),
        decreases s@.len() - i,
    {
        out.push(s[i]);
        assert(s@.take(i + 1) =~= s@.take(i as int).push(s@[i as int]));
        i = i + 1;
    }
    assert(s@.take(i as int) =~= s@);
}

/// The files `names[order[0]]`, `names[order[1]]`, ... in list order.
pub open spec fn picked(names: Seq<Vec<u8>>, order: Seq<usize>) -> Seq<Seq<u8>> {
    Seq::new(order.len(), |i: int| names[order[i] as int]@)
}

/// The concatenation list naming `names[order[0]]`, `names[order[1]]`, ...
pub fn manifest(names: &Vec<Vec<u8>>, order: &Vec<usize>) -> (r: Vec<u8>)
    requires
        forall|i: int| 0 <= i < order@.len() ==> #[trigger] order@[i] < names@.len(),
    ensures
        r@ == manifest_text(picked(names@, order@)),
{
    let prefix = LINE_PREFIX.as_bytes();
    let suffix = LINE_SUFFIX.as_bytes();
    proof {
        reveal_strlit("file 'conc/");
        reveal_strlit("'\n");
        vstd::string::is_ascii_spec_bytes(LINE_PREFIX);
        vstd::string::is_ascii_spec_bytes(LINE_SUFFIX);
        assert(prefix@ =~= line_prefix());
        assert(suffix@ =~= line_suffix());
    }
    let mut out: Vec<u8> = Vec::new();
    let mut i: usize = 0;
    while i < order.len()
        invariant
            i <= order@.len(),
            forall|k: int| 0 <= k < order@.len() ==> #[trigger] order@[k] < names@.len(),
            prefix@ == line_prefix(),
            suffix@ == line_suffix(),
            out@ == manifest_text(picked(names@, order@).take(i as int)),
        decreases order@.len() - i,
    {
        let ghost before = out@;
        push_all(&mut out, prefix);
        push_all(&mut out, names[order[i]].as_slice());
        push_all(&mut out, suffix);
        proof {
            let all = picked(names@, order@);
            assert(all.take(i + 1).drop_last() =~= all.take(i as int));
            assert(out@ =~= before + manifest_line(all[i as int]));
        }
        i = i + 1;
    }
    assert(picked(names@, order@).take(i as int) =~= picked(names@, order@));
    out
}

/// Every name is sound and every index below `n` is carried.
pub open spec fn complete(names: Seq<Vec<u8>>, n: int) -> bool {
    &&& forall|p: int| 0 <= p < names.len() ==> sound_at(names, n, p)
    &&& forall|i: int| 0 <= i < n ==> is_carried(names, i)
}

/// The position of the name that carries index `i`.
pub open spec fn carrier(names: Seq<Vec<u8>>, i: int) -> int {
    choose|p: int| 0 <= p < names.len() && carried(names, p) == Some(i)
}

/// The names that carry the indices `0, 1, ..., n - 1`, in that order.
pub open spec fn in_index_order(names: Seq<Vec<u8>>, n: int) -> Seq<Seq<u8>> {
    Seq::new(n as nat, |i: int| names[carrier(names, i)]@)
}

/// What reassembling `n` segments from the listing `names` yields: the
/// concatenation list of the names in index order where the listing is
/// complete, else the error that `order_segments` reports.
pub open spec fn reassembly_outcome(
    names: Seq<Vec<u8>>,
    n: int,
    r: Result<Vec<u8>, ReassemblyError>,
) -> bool {
    match r {
        Ok(m) => complete(names, n) && m@ == manifest_text(in_index_order(names, n)),
        Err(e) => ordering_outcome(names, n, Err(e)),
    }
}

/// Where all names are sound, at most one carries each index.
proof fn lemma_carrier_unique(names: Seq<Vec<u8>>, n: int, p: int, q: int)
    requires
        forall|k: int| 0 <= k < names.len() ==> sound_at(names, n, k),
        0 <= p < names.len(),
        0 <= q < names.len(),
        carried(names, p) == carried(names, q),
    ensures
        p == q,
{
    assert(sound_at(names, n, p));
    assert(sound_at(names, n, q));
}

/// The concatenation list of the segment outputs `names` (a directory
/// listing, in any order) for `expected` segments, each file named by its
/// index. Fails, rather than leave a segment out, on a name without an
/// index, an index out of range, a duplicate or a gap.
pub fn reassemble(names: &Vec<Vec<u8>>, expected: usize) -> (r: Result<Vec<u8>, ReassemblyError>)
    ensures
        reassembly_outcome(names@, expected as int, r),
{
    let order = match order_segments(names, expected) {
        Ok(order) => order,
        Err(e) => {
            return Err(e);
        },
    };
    let m = manifest(names, &order);
    proof {
        let n = expected as int;
        assert forall|i: int| 0 <= i < n implies is_carried(names@, i) by {
            assert(order@[i] < names@.len() && carried(names@, order@[i] as int) == Some(i));
        }
        assert forall|i: int| 0 <= i < n implies #[trigger] picked(names@, order@)[i]
            == in_index_order(names@, n)[i] by {
            assert(order@[i] < names@.len() && carried(names@, order@[i] as int) == Some(i));
            let c = carrier(names@, i);
            assert(0 <= c < names@.len() && carried(names@, c) == Some(i));
            lemma_carrier_unique(names@, n, c, order@[i] as int);
        }
        assert(picked(names@, order@) =~= in_index_order(names@, n));
    }
    Ok(m)
}

/// Reassembly fails where some index below the segment count is carried by
/// no name: it never yields a list with a segment left out.
pub proof fn lemma_gap_fails(
    names: Seq<Vec<u8>>,
    n: int,
    i: int,
    r: Result<Vec<u8>, ReassemblyError>,
)
    requires
        reassembly_outcome(names, n, r),
        0 <= i < n,
        !is_carried(names, i),
    ensures
        r is Err,
{
}

/// The order in which a directory listing yields the segment outputs does
/// not matter: where every file of one listing stands in another, at
/// position `pos[p]` for the file at `p`, and both reassemble, they give the
/// same concatenation list.
pub proof fn lemma_listing_order_irrelevant(
    names1: Seq<Vec<u8>>,
    names2: Seq<Vec<u8>>,
    n: nat,
    m1: Vec<u8>,
    m2: Vec<u8>,
    pos: Seq<int>,
)
    requires
        reassembly_outcome(names1, n as int, Ok(m1)),
        reassembly_outcome(names2, n as int, Ok(m2)),
        pos.len() == names1.len(),
        forall|p: int|
            0 <= p < names1.len() ==> 0 <= #[trigger] pos[p] < names2.len() && names2[pos[p]]@
                == names1[p]@,
    ensures
        m1@ == m2@,
{
    assert forall|i: int| 0 <= i < n implies #[trigger] in_index_order(names1, n as int)[i]
        == in_index_order(names2, n as int)[i] by {
        assert(is_carried(names1, i));
        let c1 = carrier(names1, i);
        assert(0 <= c1 < names1.len() && carried(names1, c1) == Some(i));
        let q = pos[c1];
        assert(carried(names2, q) == Some(i));
        assert(is_carried(names2, i));
        let c2 = carrier(names2, i);
        assert(0 <= c2 < names2.len() && carried(names2, c2) == Some(i));
        lemma_carrier_unique(names2, n as int, c2, q);
    }
    assert(in_index_order(names1, n as int) =~= in_index_order(names2, n as int));
}

} // verus!
