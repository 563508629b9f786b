//! Finds the slice files of a directory listing and puts them into one order.
//!
//! The order is that of the file names, compared byte by byte in their UTF-8
//! form; two entries of the same name keep the order of the listing. It does
//! not depend on the order in which the directory was enumerated.

use vstd::prelude::*;
use vstd::utf8::encode_utf8;
use crate::error::PipelineError;

verus! {

/// One entry of a directory, as it was enumerated.
#[derive(Clone, Debug)]
pub enum DirectoryEntry {
    /// A slice file, by its name.
    Slice(String),
    /// An entry that cannot be taken for a slice file.
    Unclassified,
}

/// What enumerating a directory gave.
#[derive(Clone, Debug)]
pub enum DirectoryListing {
    /// The directory does not exist or cannot be read.
    Missing,
    /// The entries of the directory, in the order of enumeration.
    Entries(Vec<DirectoryEntry>),
}

/// What to do with an entry that is no slice file.
#[derive(Clone, Copy, Debug, PartialEq, Eq, Structural)]
pub enum DiscoveryPolicy {
    /// Leave it out.
    SkipUnclassified,
    /// Fail the discovery.
    RejectUnclassified,
}

/// One slice file in the total order.
#[derive(Clone, Debug)]
pub struct SliceRef {
    /// Its position in the total order, from 0.
    pub index: usize,
    /// Its position in the listing.
    pub entry: usize,
    /// Its file name.
    pub name: String,
}

/// `a` comes strictly before `b` in lexicographic order.
pub open spec fn lex_lt(a: Seq<u8>, b: Seq<u8>) -> bool
    decreases a.len(),
{
    if b.len() == 0 {
        false
    } else if a.len() == 0 {
        true
    } else if a[0] != b[0] {
        a[0] < b[0]
    } else {
        lex_lt(a.drop_first(), b.drop_first())
    }
}

/// The bytes by which the entry at position `p` is ordered.
pub open spec fn entry_key(entries: Seq<DirectoryEntry>, p: int) -> Seq<u8> {
    match entries[p] {
        DirectoryEntry::Slice(name) => encode_utf8(name@),
        DirectoryEntry::Unclassified => Seq::empty(),
    }
}

/// The entry at position `p` comes before the one at `q` in the total order:
/// by name, and by position in the listing where the names are the same.
pub open spec fn comes_before(entries: Seq<DirectoryEntry>, p: int, q: int) -> bool {
    lex_lt(entry_key(entries, p), entry_key(entries, q)) || (entry_key(entries, p) == entry_key(
        entries,
        q,
    ) && p < q)
}

/// `refs` are the slice files of `entries` in the total order: each of them a
/// slice entry under its own name, numbered from 0, strictly rising in the
/// order, and none of the slice entries left out.
pub open spec fn is_located(entries: Seq<DirectoryEntry>, refs: Seq<SliceRef>) -> bool {
    &&& forall|k: int|
        0 <= k < refs.len() ==> {
            &&& (#[trigger] refs[k]).index == k
            &&& refs[k].entry < entries.len()
            &&& entries[refs[k].entry as int] == DirectoryEntry::Slice(refs[k].name)
        }
    &&& forall|i: int, j: int|
        0 <= i < j < refs.len() ==> comes_before(
            entries,
            (#[trigger] refs[i]).entry as int,
            (#[trigger] refs[j]).entry as int,
        )
    &&& forall|p: int|
        0 <= p < entries.len() && (#[trigger] entries[p]) is Slice ==> exists|k: int|
            0 <= k < refs.len() && (#[trigger] refs[k]).entry == p
}

/// The entry at position `p` is the first that is no slice file.
pub open spec fn first_unclassified(entries: Seq<DirectoryEntry>, p: int) -> bool {
    &&& 0 <= p < entries.len()
    &&& entries[p] is Unclassified
    &&& forall|q: int| 0 <= q < p ==> (#[trigger] entries[q]) is Slice
}

/// No sequence comes before itself.
pub proof fn lemma_lex_irreflexive(a: Seq<u8>)
    ensures
        !lex_lt(a, a),
    decreases a.len(),
{
    if a.len() > 0 {
        lemma_lex_irreflexive(a.drop_first());
    }
}

/// Of two different sequences one comes before the other.
pub proof fn lemma_lex_connected(a: Seq<u8>, b: Seq<u8>)
    ensures
        lex_lt(a, b) || a == b || lex_lt(b, a),
    decreases a.len(),
{
    if a.len() == 0 || b.len() == 0 {
        if a.len() == 0 && b.len() == 0 {
            assert(a =~= b);
        }
    } else if a[0] == b[0] {
        lemma_lex_connected(a.drop_first(), b.drop_first());
        if a.drop_first() == b.drop_first() {
            assert(a =~= seq![a[0]] + a.drop_first());
            assert(b =~= seq![b[0]] + b.drop_first());
        }
    }
}

/// Never does each of two sequences come before the other.
pub proof fn lemma_lex_asymmetric(a: Seq<u8>, b: Seq<u8>)
    ensures
        !(lex_lt(a, b) && lex_lt(b, a)),
    decreases a.len(),
{
    if a.len() > 0 && b.len() > 0 && a[0] == b[0] {
        lemma_lex_asymmetric(a.drop_first(), b.drop_first());
    }
}

/// What comes before a sequence comes before all that it comes before.
pub proof fn lemma_lex_transitive(a: Seq<u8>, b: Seq<u8>, c: Seq<u8>)
    requires
        lex_lt(a, b),
        lex_lt(b, c),
    ensures
        lex_lt(a, c),
    decreases a.len(),
{
    if a.len() > 0 && b.len() > 0 && c.len() > 0 && a[0] == b[0] && b[0] == c[0] {
        lemma_lex_transitive(a.drop_first(), b.drop_first(), c.drop_first());
    }
}

/// The total order is transitive.
pub proof fn lemma_order_transitive(entries: Seq<DirectoryEntry>, p: int, q: int, r: int)
    requires
        comes_before(entries, p, q),
        comes_before(entries, q, r),
    ensures
        comes_before(entries, p, r),
{
    let a = entry_key(entries, p);
    let b = entry_key(entries, q);
    let c = entry_key(entries, r);
    if lex_lt(a, b) && lex_lt(b, c) {
        lemma_lex_transitive(a, b, c);
    }
}

/// Of two entries at different positions exactly one comes before the other.
pub proof fn lemma_order_total(entries: Seq<DirectoryEntry>, p: int, q: int)
    ensures
        p != q ==> (comes_before(entries, p, q) <==> !comes_before(entries, q, p)),
        !comes_before(entries, p, p),
{
    let a = entry_key(entries, p);
    let b = entry_key(entries, q);
    lemma_lex_connected(a, b);
    lemma_lex_asymmetric(a, b);
    lemma_lex_irreflexive(a);
    lemma_lex_irreflexive(b);
}

/// Whether the bytes `a` come strictly before the bytes `b`.
pub fn precedes(a: &[u8], b: &[u8]) -> (r: bool)
    ensures
        r == lex_lt(a@, b@),
{
    let mut i: usize = 0;
    proof {
        assert(a@.skip(0) =~= a@);
        assert(b@.skip(0) =~= b@);
    }
    while i < a.len() && i < b.len()
        invariant
            i <= a.len(),
            i <= b.len(),
            lex_lt(a@, b@) == lex_lt(a@.skip(i as int), b@.skip(i as int)),
        decreases a.len() - i,
    {
        proof {
            assert(a@.skip(i as int)[0] == a@[i as int]);
            assert(b@.skip(i as int)[0] == b@[i as int]);
            assert(a@.skip(i as int).drop_first() =~= a@.skip(i + 1));
            assert(b@.skip(i as int).drop_first() =~= b@.skip(i + 1));
        }
        if a[i] != b[i] {
            return a[i] < b[i];
        }
        i += 1;
    }
    i < b.len()
}

/// Whether the name of the slice entry at `p` comes strictly before that of
/// the slice entry at `q`.
fn name_precedes(entries: &Vec<DirectoryEntry>, p: usize, q: usize) -> (r: bool)
    requires
        p < entries.len(),
        q < entries.len(),
    ensures
        r == lex_lt(entry_key(entries@, p as int), entry_key(entries@, q as int)),
{
    match (&entries[p], &entries[q]) {
        (DirectoryEntry::Slice(a), DirectoryEntry::Slice(b)) => precedes(
            a.as_str().as_bytes(),
            b.as_str().as_bytes(),
        ),
        (DirectoryEntry::Slice(_), DirectoryEntry::Unclassified) => false,
        (DirectoryEntry::Unclassified, DirectoryEntry::Slice(b)) => b.as_str().as_bytes().len()
            > 0,
        (DirectoryEntry::Unclassified, DirectoryEntry::Unclassified) => false,
    }
}

/// `order` holds the positions of the slice entries among the first `upto`
/// entries, each once, in the total order.
spec fn is_order(entries: Seq<DirectoryEntry>, order: Seq<usize>, upto: int) -> bool {
    &&& forall|k: int|
        0 <= k < order.len() ==> (#[trigger] order[k]) < upto && entries[order[k] as int] is Slice
    &&& forall|i: int, j: int|
        0 <= i < j < order.len() ==> comes_before(
            entries,
            (#[trigger] order[i]) as int,
            (#[trigger] order[j]) as int,
        )
    &&& forall|p: int|
        0 <= p < upto && (#[trigger] entries[p]) is Slice ==> exists|k: int|
            0 <= k < order.len() && (#[trigger] order[k]) == p
}

/// Putting position `p` into an order of the entries before it, at the place
/// where all before it come before `p` and `p` comes before all after it,
/// gives an order of the entries up to `p`.
proof fn lemma_insert_keeps_order(
    entries: Seq<DirectoryEntry>,
    order: Seq<usize>,
    p: usize,
    at: int,
)
    requires
        p < entries.len(),
        entries[p as int] is Slice,
        is_order(entries, order, p as int),
        0 <= at <= order.len(),
        forall|j: int| 0 <= j < at ==> comes_before(entries, (#[trigger] order[j]) as int, p as int),
        forall|j: int|
            at <= j < order.len() ==> comes_before(entries, p as int, (#[trigger] order[j]) as int),
    ensures
        is_order(entries, order.insert(at, p), p + 1),
{
    let next = order.insert(at, p);
    order.insert_ensures(at, p);
    assert forall|k: int| 0 <= k < next.len() implies (#[trigger] next[k]) < p + 1
        && entries[next[k] as int] is Slice by {
        if k < at {
            assert(next[k] == order[k]);
        } else if k > at {
            assert(next[k] == order[k - 1]);
        }
    }
    assert forall|i: int, j: int| 0 <= i < j < next.len() implies comes_before(
        entries,
        (#[trigger] next[i]) as int,
        (#[trigger] next[j]) as int,
    ) by {
        let a = if i < at {
            i
        } else {
            i - 1
        };
        let b = if j < at {
            j
        } else {
            j - 1
        };
        if i != at {
            assert(next[i] == order[a]);
        }
        if j != at {
            assert(next[j] == order[b]);
        }
    }
    assert forall|q: int| 0 <= q < p + 1 && (#[trigger] entries[q]) is Slice implies exists|k: int|
        0 <= k < next.len() && (#[trigger] next[k]) == q by {
        if q == p {
            assert(next[at] == p);
        } else {
            let k = choose|k: int| 0 <= k < order.len() && (#[trigger] order[k]) == q;
            if k < at {
                assert(next[k] == order[k]);
            } else {
                assert(next[k + 1] == order[k]);
            }
        }
    }
}

/// The positions of the slice entries, in the total order.
fn ordered_positions(entries: &Vec<DirectoryEntry>) -> (order: Vec<usize>)
    ensures
        is_order(entries@, order@, entries.len() as int),
{
    let mut order: Vec<usize> = Vec::new();
    let mut p: usize = 0;
    while p < entries.len()
        invariant
            p <= entries.len(),
            is_order(entries@, order@, p as int),
        decreases entries.len() - p,
    {
        match &entries[p] {
            DirectoryEntry::Unclassified => {},
            DirectoryEntry::Slice(_) => {
                let mut at: usize = order.len();
                while at > 0 && name_precedes(entries, p, order[at - 1])
                    invariant
                        p < entries.len(),
                        at <= order.len(),
                        is_order(entries@, order@, p as int),
                        forall|j: int|
                            at <= j < order.len() ==> comes_before(
                                entries@,
                                p as int,
                                (#[trigger] order[j]) as int,
                            ),
                    decreases at,
                {
                    at -= 1;
                }
                proof {
                    assert forall|j: int| 0 <= j < at implies comes_before(
                        entries@,
                        (#[trigger] order[j]) as int,
                        p as int,
                    ) by {
                        let near = order[at - 1] as int;
                        lemma_order_total(entries@, near, p as int);
                        assert(comes_before(entries@, near, p as int));
                        if j < at - 1 {
                            lemma_order_transitive(entries@, order[j] as int, near, p as int);
                        }
                    }
                    lemma_insert_keeps_order(entries@, order@, p, at as int);
                }
                order.insert(at, p);
            },
        }
        p += 1;
    }
    order
}

/// The position of the first entry that is no slice file, if there is one.
pub fn find_unclassified(entries: &Vec<DirectoryEntry>) -> (r: Option<usize>)
    ensures
        r matches Some(p) ==> first_unclassified(entries@, p as int),
        r is None ==> forall|q: int| 0 <= q < entries.len() ==> (#[trigger] entries[q]) is Slice,
{
    let mut p: usize = 0;
    while p < entries.len()
        invariant
            p <= entries.len(),
            forall|q: int| 0 <= q < p ==> (#[trigger] entries[q]) is Slice,
        decreases entries.len() - p,
    {
        match &entries[p] {
            DirectoryEntry::Unclassified => {
                return Some(p);
            },
            DirectoryEntry::Slice(_) => {},
        }
        p += 1;
    }
    None
}

/// Puts the slice entries into the total order, leaving out the others.
pub fn order_slices(entries: &Vec<DirectoryEntry>) -> (refs: Vec<SliceRef>)
    ensures
        is_located(entries@, refs@),
{
    let order = ordered_positions(entries);
    let mut refs: Vec<SliceRef> = Vec::new();
    let mut k: usize = 0;
    while k < order.len()
        invariant
            k <= order.len(),
            refs.len() == k,
            is_order(entries@, order@, entries.len() as int),
            forall|i: int|
                0 <= i < k ==> {
                    &&& (#[trigger] refs[i]).index == i
                    &&& refs[i].entry == order[i]
                    &&& entries[order[i] as int] == DirectoryEntry::Slice(refs[i].name)
                },
        decreases order.len() - k,
    {
        let entry = order[k];
        match &entries[entry] {
            DirectoryEntry::Slice(name) => {
                refs.push(SliceRef { index: k, entry, name: name.clone() });
            },
            DirectoryEntry::Unclassified => {
                assert(false);
            },
        }
        k += 1;
    }
    proof {
        assert forall|p: int|
            0 <= p < entries.len() && (#[trigger] entries[p]) is Slice implies exists|k: int|
            0 <= k < refs.len() && (#[trigger] refs[k]).entry == p by {
            let k = choose|k: int| 0 <= k < order.len() && (#[trigger] order[k]) == p;
            assert(refs[k].entry == p);
        }
    }
    refs
}

/// Why discovery fails on this listing under this policy, if it does: for
/// want of the directory, or, where the policy rejects them, for the first
/// entry that is no slice file.
pub open spec fn discovery_failure(
    listing: DirectoryListing,
    policy: DiscoveryPolicy,
    e: PipelineError,
) -> bool {
    match listing {
        DirectoryListing::Missing => e == PipelineError::NotFound,
        DirectoryListing::Entries(entries) => {
            &&& policy == DiscoveryPolicy::RejectUnclassified
            &&& e matches PipelineError::Discovery { entry }
            &&& first_unclassified(entries@, entry as int)
        },
    }
}

/// Discovery succeeds on this listing under this policy.
pub open spec fn discoverable(listing: DirectoryListing, policy: DiscoveryPolicy) -> bool {
    &&& listing matches DirectoryListing::Entries(entries)
    &&& policy == DiscoveryPolicy::RejectUnclassified ==> forall|q: int|
        0 <= q < entries.len() ==> (#[trigger] entries@[q]) is Slice
}

/// Establishes the slice files of a directory and their order.
///
/// It fails with `NotFound` where the directory is missing, and with
/// `Discovery`, naming the first entry that is no slice file, where there is
/// one and the policy rejects it. Otherwise it gives the slice entries in the
/// total order, which depends on the names and not on the order of the
/// listing.
pub fn locate(listing: &DirectoryListing, policy: DiscoveryPolicy) -> (r: Result<
    Vec<SliceRef>,
    PipelineError,
>)
    ensures
        r is Ok <==> discoverable(*listing, policy),
        r matches Ok(refs) ==> {
            &&& listing matches DirectoryListing::Entries(entries)
            &&& is_located(entries@, refs@)
        },
        r matches Err(e) ==> discovery_failure(*listing, policy, e),
{
    match listing {
        DirectoryListing::Missing => Err(PipelineError::NotFound),
        DirectoryListing::Entries(entries) => {
            match policy {
                DiscoveryPolicy::RejectUnclassified => {
                    match find_unclassified(entries) {
                        Some(entry) => {
                            return Err(PipelineError::Discovery { entry });
                        },
                        None => {},
                    }
                },
                DiscoveryPolicy::SkipUnclassified => {},
            }
            Ok(order_slices(entries))
        },
    }
}

/// The bytes by which a slice file is ordered: its name in UTF-8.
pub open spec fn name_key(slice: SliceRef) -> Seq<u8> {
    encode_utf8(slice.name@)
}

/// In two orders of the slice files of one listing, the same entry stands at
/// each position.
proof fn lemma_same_entry(
    entries: Seq<DirectoryEntry>,
    a: Seq<SliceRef>,
    b: Seq<SliceRef>,
    k: int,
)
    requires
        is_located(entries, a),
        is_located(entries, b),
        0 <= k < a.len(),
    ensures
        k < b.len(),
        a[k].entry == b[k].entry,
    decreases k,
{
    let p = a[k].entry as int;
    assert(entries[p] is Slice);
    let m = choose|m: int| 0 <= m < b.len() && (#[trigger] b[m]).entry == p;
    lemma_order_total(entries, p, p);
    if m < k {
        if m < a.len() {
            lemma_same_entry(entries, a, b, m);
            assert(comes_before(entries, a[m].entry as int, a[k].entry as int));
        }
        assert(false);
    }
    let q = b[k].entry as int;
    assert(entries[q] is Slice);
    let n = choose|n: int| 0 <= n < a.len() && (#[trigger] a[n]).entry == q;
    lemma_order_total(entries, q, q);
    lemma_order_total(entries, p, q);
    if n < k {
        lemma_same_entry(entries, a, b, n);
        assert(comes_before(entries, b[n].entry as int, b[k].entry as int));
        assert(false);
    }
    if m > k {
        assert(comes_before(entries, b[k].entry as int, b[m].entry as int));
        if n > k {
            assert(comes_before(entries, a[k].entry as int, a[n].entry as int));
        }
        assert(false);
    }
}

/// The order of the slice files is a function of the listing: there is one
/// sequence of slice files that `locate` can give for it, and no other.
pub proof fn lemma_located_unique(
    entries: Seq<DirectoryEntry>,
    a: Seq<SliceRef>,
    b: Seq<SliceRef>,
)
    requires
        is_located(entries, a),
        is_located(entries, b),
    ensures
        a == b,
{
    if a.len() > b.len() {
        lemma_same_entry(entries, a, b, b.len() as int);
    }
    if b.len() > a.len() {
        lemma_same_entry(entries, b, a, a.len() as int);
    }
    assert forall|k: int| 0 <= k < a.len() implies a[k] == b[k] by {
        lemma_same_entry(entries, a, b, k);
        assert(entries[a[k].entry as int] == DirectoryEntry::Slice(a[k].name));
        assert(entries[b[k].entry as int] == DirectoryEntry::Slice(b[k].name));
    }
    assert(a =~= b);
}

/// Where no two slice files have the same name, the position of a slice file
/// in the order is the rank of its name: one stands before another exactly
/// when its name comes before the other's.
pub proof fn lemma_index_follows_name(
    entries: Seq<DirectoryEntry>,
    refs: Seq<SliceRef>,
    i: int,
    j: int,
)
    requires
        is_located(entries, refs),
        forall|a: int, b: int|
            0 <= a < b < refs.len() ==> name_key(#[trigger] refs[a]) != name_key(
                #[trigger] refs[b],
            ),
        0 <= i < refs.len(),
        0 <= j < refs.len(),
    ensures
        lex_lt(name_key(refs[i]), name_key(refs[j])) <==> i < j,
{
    let p = refs[i].entry as int;
    let q = refs[j].entry as int;
    assert(entry_key(entries, p) == name_key(refs[i]));
    assert(entry_key(entries, q) == name_key(refs[j]));
    lemma_lex_irreflexive(name_key(refs[i]));
    lemma_lex_asymmetric(name_key(refs[i]), name_key(refs[j]));
    if i < j {
        assert(comes_before(entries, p, q));
    } else if j < i {
        assert(comes_before(entries, q, p));
    }
}

} // verus!
