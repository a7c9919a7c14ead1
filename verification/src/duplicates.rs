//! The duplicate engine: grouping files into exact-duplicate sets, with
//! byte-for-byte verification, and grouping visually similar images by
//! perceptual-hash distance.
//!
//! Reading file contents and decoding images are input/output and live
//! outside this crate: the engine works on records paired with their
//! bytes (or their perceptual hashes) and is verified for every value
//! of them.

use vstd::prelude::*;
use crate::scanner::FileInfo;
use crate::strutil::string_of;

verus! {

/// What the xxHash3 64-bit hash returns for a byte string.
pub uninterp spec fn xxh3_of(data: Seq<u8>) -> u64;

/// Relies on xxhash_rust's `xxh3_64`: the 64-bit xxHash3 of the first
/// `k` bytes, a function of those bytes alone.
#[verifier::external_body]
fn xxh3_prefix(data: &Vec<u8>, k: usize) -> (r: u64)
    requires
        k <= data@.len(),
    ensures
        r == xxh3_of(data@.subrange(0, k as int)),
{
    xxhash_rust::xxh3::xxh3_64(&data[..k])
}

/// Whether two byte strings are identical.
fn bytes_equal(a: &Vec<u8>, b: &Vec<u8>) -> (r: bool)
    ensures
        r == (a@ == b@),
{
    if a.len() != b.len() {
        assert(a@.len() != b@.len());
        return false;
    }
    let mut i: usize = 0;
    while i < a.len()
        invariant
            a@.len() == b@.len(),
            i <= a@.len(),
            forall|k: int| 0 <= k < i ==> a@[k] == b@[k],
        decreases a@.len() - i,
    {
        if a[i] != b[i] {
            return false;
        }
        i += 1;
    }
    assert(a@ =~= b@);
    true
}

/// The lowercase hex digit for `d`.
pub open spec fn hex_digit(d: int) -> char
    recommends
        0 <= d < 16,
{
    if d < 10 {
        (('0' as u8) + d) as char
    } else {
        (('a' as u8) + (d - 10)) as char
    }
}

/// `v` written as `k` lowercase hex digits, most significant first.
pub open spec fn hex_digits_fixed(v: u64, k: nat) -> Seq<char>
    decreases k,
{
    if k == 0 {
        Seq::empty()
    } else {
        hex_digits_fixed(v / 16, (k - 1) as nat).push(hex_digit((v % 16) as int))
    }
}

/// A 64-bit value as 16 lowercase hex digits, as `{:016x}` prints it.
pub open spec fn hex16(v: u64) -> Seq<char> {
    hex_digits_fixed(v, 16)
}

fn hex_fixed_exec(v: u64, k: usize) -> (r: Vec<char>)
    requires
        k <= 16,
    ensures
        r@ == hex_digits_fixed(v, k as nat),
    decreases k,
{
    if k == 0 {
        let r: Vec<char> = Vec::new();
        assert(r@ =~= hex_digits_fixed(v, 0));
        r
    } else {
        let mut r = hex_fixed_exec(v / 16, k - 1);
        let d = v % 16;
        if d < 10 {
            r.push(((48 + d) as u8) as char);
        } else {
            r.push(((97 + (d - 10)) as u8) as char);
        }
        assert(r@ =~= hex_digits_fixed(v, k as nat));
        r
    }
}

/// The content fingerprint shown for a group: the xxHash3 of the first
/// 64 KiB of the content (the whole content for smaller files), in hex.
pub open spec fn display_hash(content: Seq<u8>) -> Seq<char> {
    let k = if content.len() < 65536 {
        content.len()
    } else {
        65536
    };
    hex16(xxh3_of(content.subrange(0, k as int)))
}

/// One scanned file together with its content bytes.
pub struct FileData {
    pub info: FileInfo,
    pub content: Vec<u8>,
}

/// A record is consistent when its recorded size is its content length.
pub open spec fn wf_data(d: FileData) -> bool {
    d.info.size == d.content@.len()
}

/// A group of files verified to have byte-identical content.
#[derive(Debug)]
pub struct DuplicateGroup {
    /// A content fingerprint, for display only.
    pub hash: String,
    /// The member records, at least two, all with identical content.
    pub files: Vec<FileInfo>,
    /// The shared size in bytes.
    pub size: u64,
}

impl DuplicateGroup {
    /// The space freed by keeping one member and removing the rest:
    /// `size * (count - 1)`, zero for fewer than two members, saturating
    /// at `u64::MAX`.
    pub fn wasted_space(&self) -> (r: u64)
        ensures
            self.files@.len() <= 1 ==> r == 0,
            self.files@.len() > 1 && self.size * (self.files@.len() - 1) <= u64::MAX ==> r
                == self.size * (self.files@.len() - 1),
            self.files@.len() > 1 && self.size * (self.files@.len() - 1) > u64::MAX ==> r
                == u64::MAX,
    {
        if self.files.len() > 1 {
            let copies = (self.files.len() - 1) as u64;
            if self.size != 0 && copies > u64::MAX / self.size {
                proof {
                    lemma_mul_div_bound(self.size as nat, copies as nat);
                }
                u64::MAX
            } else {
                proof {
                    if self.size != 0 {
                        lemma_mul_le_div(self.size as nat, copies as nat);
                    }
                }
                self.size * copies
            }
        } else {
            0
        }
    }
}

proof fn lemma_mul_div_bound(s: nat, c: nat)
    requires
        s > 0,
        c > u64::MAX as nat / s,
    ensures
        s * c > u64::MAX,
{
    vstd::arithmetic::div_mod::lemma_fundamental_div_mod(u64::MAX as int, s as int);
    assert(s * c >= s * (u64::MAX as nat / s + 1)) by (nonlinear_arith)
        requires s > 0, c >= u64::MAX as nat / s + 1;
    assert(s * (u64::MAX as nat / s + 1) == s * (u64::MAX as nat / s) + s) by (nonlinear_arith);
    assert(s * (u64::MAX as nat / s) + s > u64::MAX) by (nonlinear_arith)
        requires
            u64::MAX as int == (u64::MAX as int / s as int) * s as int + u64::MAX as int % s as int,
            (u64::MAX as int % s as int) < s as int,
            s > 0;
}

proof fn lemma_mul_le_div(s: nat, c: nat)
    requires
        s > 0,
        c <= u64::MAX as nat / s,
    ensures
        s * c <= u64::MAX,
{
    vstd::arithmetic::div_mod::lemma_fundamental_div_mod(u64::MAX as int, s as int);
    assert(s * c <= s * (u64::MAX as nat / s)) by (nonlinear_arith)
        requires s > 0, c <= u64::MAX as nat / s;
    assert(s * (u64::MAX as nat / s) <= u64::MAX) by (nonlinear_arith)
        requires
            u64::MAX as int == (u64::MAX as int / s as int) * s as int + u64::MAX as int % s as int,
            (u64::MAX as int % s as int) >= 0;
}

/// Every entry with equal content to a leader's is in that leader's
/// member list.
proof fn lemma_members_complete(entries: Seq<FileData>, L: int, x: int, m: int)
    requires
        0 <= x < m <= entries.len(),
        entries[x].content@ == entries[L].content@,
    ensures
        members_up_to(entries, L, m).contains(x),
    decreases m,
{
    if m - 1 == x {
        let cur = members_up_to(entries, L, m);
        assert(cur == members_up_to(entries, L, m - 1).push(x));
        assert(cur[cur.len() - 1] == x);
    } else {
        lemma_members_complete(entries, L, x, m - 1);
        let rest = members_up_to(entries, L, m - 1);
        let k = choose|k: int| 0 <= k < rest.len() && rest[k] == x;
        assert(members_up_to(entries, L, m)[k] == x);
    }
}

/// Every entry with nonempty content has a leader for its content
/// class: the first entry carrying that content.
proof fn lemma_leader_exists(entries: Seq<FileData>, j: int)
    requires
        0 <= j < entries.len(),
        entries[j].content@.len() > 0,
    ensures
        exists|L: int|
            0 <= L <= j && #[trigger] is_leader(entries, L) && entries[L].content@ == entries[
                j
            ].content@,
    decreases j,
{
    if forall|k: int| 0 <= k < j ==> (#[trigger] entries[k].content@) != entries[j].content@ {
        assert(is_leader(entries, j));
    } else {
        let k = choose|k: int| 0 <= k < j && (#[trigger] entries[k].content@) == entries[j].content@;
        lemma_leader_exists(entries, k);
    }
}

/// Two distinct entries with equal nonempty content share exactly one
/// leader: one leader's member list holds both, and no other leader's
/// list holds either. With the one-group-per-leader shape of
/// [`find_duplicates`], exactly one returned group holds the pair.
pub proof fn lemma_pair_in_one_class(entries: Seq<FileData>, a: int, b: int)
    requires
        0 <= a < entries.len(),
        0 <= b < entries.len(),
        a != b,
        entries[a].content@ == entries[b].content@,
        entries[a].content@.len() > 0,
    ensures
        exists|L: int|
            {
                &&& #[trigger] is_leader(entries, L)
                &&& members(entries, L).contains(a)
                &&& members(entries, L).contains(b)
                &&& members(entries, L).len() >= 2
                &&& forall|L2: int|
                    #[trigger] is_leader(entries, L2) && (members(entries, L2).contains(a)
                        || members(entries, L2).contains(b)) ==> L2 == L
            },
{
    lemma_leader_exists(entries, a);
    let L = choose|L: int|
        0 <= L <= a && #[trigger] is_leader(entries, L) && entries[L].content@ == entries[
            a
        ].content@;
    lemma_members_complete(entries, L, a, entries.len() as int);
    lemma_members_complete(entries, L, b, entries.len() as int);
    lemma_members_props(entries, L, entries.len() as int);
    assert(members(entries, L).len() >= 2) by {
        let ka = choose|k: int|
            0 <= k < members(entries, L).len() && members(entries, L)[k] == a;
        let kb = choose|k: int|
            0 <= k < members(entries, L).len() && members(entries, L)[k] == b;
        assert(ka != kb);
    }
    assert forall|L2: int|
        #[trigger] is_leader(entries, L2) && (members(entries, L2).contains(a) || members(
            entries,
            L2,
        ).contains(b)) implies L2 == L by {
        if L2 != L {
            lemma_distinct_leaders_disjoint(entries, L, L2);
            lemma_members_props(entries, L2, entries.len() as int);
            if members(entries, L2).contains(a) {
                assert(!(members(entries, L).contains(a) && members(entries, L2).contains(a)));
            } else {
                assert(!(members(entries, L).contains(b) && members(entries, L2).contains(b)));
            }
        }
    }
}

/// Entry `L` is the first entry with its (nonempty) content.
pub open spec fn is_leader(entries: Seq<FileData>, L: int) -> bool {
    &&& 0 <= L < entries.len()
    &&& entries[L].content@.len() > 0
    &&& forall|k: int| 0 <= k < L ==> entries[k].content@ != entries[L].content@
}

/// The indices among the first `m` entries whose content equals entry
/// `L`'s, in order.
pub open spec fn members_up_to(entries: Seq<FileData>, L: int, m: int) -> Seq<int>
    decreases m,
{
    if m <= 0 {
        Seq::empty()
    } else {
        let rest = members_up_to(entries, L, m - 1);
        if entries[m - 1].content@ == entries[L].content@ {
            rest.push(m - 1)
        } else {
            rest
        }
    }
}

/// Every index whose content equals entry `L`'s, in order.
pub open spec fn members(entries: Seq<FileData>, L: int) -> Seq<int> {
    members_up_to(entries, L, entries.len() as int)
}

/// The group that leader `L` describes: the member records in index
/// order, the shared size, and the display fingerprint of the content.
pub open spec fn group_matches(g: DuplicateGroup, entries: Seq<FileData>, L: int) -> bool {
    &&& g.size == entries[L].content@.len()
    &&& g.hash@ == display_hash(entries[L].content@)
    &&& g.files@ == members(entries, L).map_values(|j: int| entries[j].info)
}

/// Some leader with at least two members describes `g`.
pub open spec fn sound_group(g: DuplicateGroup, entries: Seq<FileData>) -> bool {
    exists|L: int|
        is_leader(entries, L) && #[trigger] group_matches(g, entries, L) && members(
            entries,
            L,
        ).len() >= 2
}

/// The result `r` holds a group for leader `L`.
pub open spec fn has_group(r: Seq<DuplicateGroup>, entries: Seq<FileData>, L: int) -> bool {
    exists|gi: int| 0 <= gi < r.len() && group_matches(#[trigger] r[gi], entries, L)
}

/// An entry's content class already has a representative among the
/// first `i` entries.
pub open spec fn covered(entries: Seq<FileData>, i: int, j: int) -> bool {
    entries[j].content@.len() > 0 && exists|k: int|
        0 <= k < i && #[trigger] entries[k].content@ == entries[j].content@
}

/// The leaders whose content class has at least two members, among the
/// first `m` entries, in index order: one per returned group.
pub open spec fn qualifying_leaders(entries: Seq<FileData>, m: int) -> Seq<int>
    decreases m,
{
    if m <= 0 {
        Seq::empty()
    } else {
        let rest = qualifying_leaders(entries, m - 1);
        if is_leader(entries, m - 1) && members(entries, m - 1).len() >= 2 {
            rest.push(m - 1)
        } else {
            rest
        }
    }
}

/// Qualifying leaders index into the first `m` entries, strictly
/// increasing, and are all leaders of classes with enough members.
pub proof fn lemma_qualifying_leaders_props(entries: Seq<FileData>, m: int)
    ensures
        forall|k: int|
            0 <= k < qualifying_leaders(entries, m).len() ==> {
                &&& 0 <= #[trigger] qualifying_leaders(entries, m)[k] < m
                &&& is_leader(entries, qualifying_leaders(entries, m)[k])
                &&& members(entries, qualifying_leaders(entries, m)[k]).len() >= 2
            },
        forall|k: int, l: int|
            0 <= k < l < qualifying_leaders(entries, m).len() ==> qualifying_leaders(entries, m)[k]
                < qualifying_leaders(entries, m)[l],
    decreases m,
{
    if m > 0 {
        lemma_qualifying_leaders_props(entries, m - 1);
        let rest = qualifying_leaders(entries, m - 1);
        if is_leader(entries, m - 1) && members(entries, m - 1).len() >= 2 {
            let q = qualifying_leaders(entries, m);
            assert(q == rest.push(m - 1));
            assert forall|k: int| 0 <= k < q.len() implies {
                &&& 0 <= #[trigger] q[k] < m
                &&& is_leader(entries, q[k])
                &&& members(entries, q[k]).len() >= 2
            } by {
                if k < rest.len() {
                    assert(q[k] == rest[k]);
                } else {
                    assert(q[k] == m - 1);
                }
            }
            assert forall|k: int, l: int| 0 <= k < l < q.len() implies q[k] < q[l] by {
                if l < rest.len() {
                    assert(q[k] == rest[k] && q[l] == rest[l]);
                } else {
                    assert(q[l] == m - 1);
                    assert(q[k] == rest[k]);
                    assert(rest[k] < m - 1);
                }
            }
        } else {
            assert(qualifying_leaders(entries, m) == rest);
        }
    }
}

/// Two distinct leaders share no member: their contents differ, and a
/// member's content equals its leader's.
pub proof fn lemma_distinct_leaders_disjoint(entries: Seq<FileData>, l1: int, l2: int)
    requires
        is_leader(entries, l1),
        is_leader(entries, l2),
        l1 != l2,
    ensures
        forall|x: int|
            !(members(entries, l1).contains(x) && #[trigger] members(entries, l2).contains(x)),
{
    assert(entries[l1].content@ != entries[l2].content@) by {
        if l1 < l2 {
            assert(entries[l1].content@ != entries[l2].content@);
        } else {
            assert(entries[l2].content@ != entries[l1].content@);
        }
    }
    lemma_members_props(entries, l1, entries.len() as int);
    lemma_members_props(entries, l2, entries.len() as int);
    assert forall|x: int|
        !(members(entries, l1).contains(x) && #[trigger] members(entries, l2).contains(
            x,
        )) by {
        if members(entries, l1).contains(x) && members(entries, l2).contains(x) {
            let k1 = choose|k: int|
                0 <= k < members(entries, l1).len() && members(entries, l1)[k] == x;
            let k2 = choose|k: int|
                0 <= k < members(entries, l2).len() && members(entries, l2)[k] == x;
            assert(entries[x].content@ == entries[l1].content@);
            assert(entries[x].content@ == entries[l2].content@);
        }
    }
}

/// Groups the entries into exact-duplicate sets.
///
/// Every returned group has at least two members, drawn from distinct
/// entries whose contents were verified byte-for-byte equal and
/// nonempty; its size is the shared content length. Every pair of
/// distinct entries with equal nonempty content appears together in
/// some group: one group per first-encountered content. Empty files and
/// contents no other entry shares produce no group.
pub fn find_duplicates(entries: &Vec<FileData>) -> (r: Vec<DuplicateGroup>)
    ensures
        r@.len() == qualifying_leaders(entries@, entries@.len() as int).len(),
        forall|gi: int|
            0 <= gi < r@.len() ==> group_matches(
                #[trigger] r@[gi],
                entries@,
                qualifying_leaders(entries@, entries@.len() as int)[gi],
            ),
        forall|gi: int| 0 <= gi < r@.len() ==> sound_group(#[trigger] r@[gi], entries@),
        forall|L: int|
            #![trigger members(entries@, L)]
            is_leader(entries@, L) && members(entries@, L).len() >= 2 ==> has_group(
                r@,
                entries@,
                L,
            ),
{
    let n = entries.len();
    let mut processed: Vec<bool> = Vec::new();
    let mut i0: usize = 0;
    while i0 < n
        invariant
            processed@.len() == i0 <= n,
            forall|k: int| 0 <= k < i0 ==> !processed@[k],
        decreases n - i0,
    {
        processed.push(false);
        i0 += 1;
    }
    let mut r: Vec<DuplicateGroup> = Vec::new();
    let mut i: usize = 0;
    while i < n
        invariant
            n == entries@.len(),
            processed@.len() == n,
            i <= n,
            // an entry is marked exactly when its content class already
            // has a representative among the first `i` entries
            forall|j: int| 0 <= j < n ==> processed@[j] == covered(entries@, i as int, j),
            // one group so far per qualifying leader, in order
            r@.len() == qualifying_leaders(entries@, i as int).len(),
            forall|gi: int|
                0 <= gi < r@.len() ==> group_matches(
                    #[trigger] r@[gi],
                    entries@,
                    qualifying_leaders(entries@, i as int)[gi],
                ),
            // soundness so far
            forall|gi: int| 0 <= gi < r@.len() ==> sound_group(#[trigger] r@[gi], entries@),
            // every leader below `i` with enough members has its group
            forall|L: int|
                #![trigger members(entries@, L)]
                0 <= L < i && is_leader(entries@, L) && members(entries@, L).len() >= 2
                    ==> has_group(r@, entries@, L),
        decreases n - i,
    {
        if !processed[i] && entries[i].content.len() > 0 {
            proof {
                assert(!covered(entries@, i as int, i as int));
                assert(is_leader(entries@, i as int));
            }
            let ghost old_processed = processed@;
            proof {
                assert(old_processed.len() == n);
            }
            let leader_content = &entries[i].content;
            let prefix_len: usize = if leader_content.len() < 4096 {
                leader_content.len()
            } else {
                4096
            };
            let leader_fp = xxh3_prefix(leader_content, prefix_len);
            let mut files: Vec<FileInfo> = Vec::new();
            let mut j: usize = 0;
            assert(files@ =~= members_up_to(entries@, i as int, 0).map_values(
                |k: int| entries@[k].info,
            ));
            while j < n
                invariant
                    n == entries@.len(),
                    processed@.len() == n,
                    i < n,
                    j <= n,
                    entries@[i as int].content@.len() > 0,
                    leader_content@ == entries@[i as int].content@,
                    forall|k: int| 0 <= k < n ==> old_processed[k] == covered(entries@, i as int, k),
                    prefix_len as nat == if entries@[i as int].content@.len() < 4096 {
                        entries@[i as int].content@.len()
                    } else {
                        4096 as nat
                    },
                    old_processed.len() == n,
                    leader_fp == xxh3_of(
                        entries@[i as int].content@.subrange(0, prefix_len as int),
                    ),
                    files@ == members_up_to(entries@, i as int, j as int).map_values(
                        |k: int| entries@[k].info,
                    ),
                    forall|k: int|
                        0 <= k < n ==> #[trigger] processed@[k] == (old_processed[k] || (k < j
                            && entries@[k].content@ == entries@[i as int].content@)),
                decreases n - j,
            {
                let cand = &entries[j].content;
                let equal: bool = if cand.len() == leader_content.len() {
                    let cand_fp = xxh3_prefix(cand, prefix_len);
                    if cand_fp == leader_fp {
                        bytes_equal(cand, leader_content)
                    } else {
                        proof {
                            if cand@ == entries@[i as int].content@ {
                                assert(cand@.subrange(0, prefix_len as int) =~= entries@[
                                i as int].content@.subrange(0, prefix_len as int));
                            }
                        }
                        false
                    }
                } else {
                    proof {
                        assert(cand@.len() != entries@[i as int].content@.len());
                    }
                    false
                };
                if equal {
                    files.push(entries[j].info.clone());
                    processed.set(j, true);
                }
                proof {
                    assert(members_up_to(entries@, i as int, j + 1) == if entries@[
                    j as int].content@ == entries@[i as int].content@ {
                        members_up_to(entries@, i as int, j as int).push(j as int)
                    } else {
                        members_up_to(entries@, i as int, j as int)
                    });
                    assert(files@ =~= members_up_to(entries@, i as int, j + 1).map_values(
                        |k: int| entries@[k].info,
                    ));
                }
                j += 1;
            }
            assert(j == n);
            assert(forall|k: int|
                0 <= k < n ==> #[trigger] processed@[k] == (old_processed[k] || (k < n && entries@[
                k].content@ == entries@[i as int].content@)));
            if files.len() > 1 {
                let display_len: usize = if leader_content.len() < 65536 {
                    leader_content.len()
                } else {
                    65536
                };
                let dh = xxh3_prefix(leader_content, display_len);
                let hash = string_of(&hex_fixed_exec(dh, 16));
                let size = entries[i].content.len() as u64;
                let g = DuplicateGroup { hash, files, size };
                proof {
                    lemma_members_len(entries@, i as int, n as int);
                    assert(group_matches(g, entries@, i as int));
                }
                let ghost r_before = r@;
                r.push(g);
                proof {
                    assert(r@ == r_before.push(g));
                    assert(r@.last() == g);
                    assert(sound_group(g, entries@)) by {
                        assert(group_matches(g, entries@, i as int));
                    }
                    assert(members(entries@, i as int).len() >= 2) by {
                        assert(g.files@.len() > 1);
                    }
                    assert(qualifying_leaders(entries@, i + 1) == qualifying_leaders(
                        entries@,
                        i as int,
                    ).push(i as int));
                    assert forall|gi: int| 0 <= gi < r@.len() implies group_matches(
                        #[trigger] r@[gi],
                        entries@,
                        qualifying_leaders(entries@, i + 1)[gi],
                    ) by {
                        if gi < r_before.len() {
                            assert(r@[gi] == r_before[gi]);
                            assert(qualifying_leaders(entries@, i + 1)[gi] == qualifying_leaders(
                                entries@,
                                i as int,
                            )[gi]);
                        } else {
                            assert(r@[gi] == g);
                            assert(qualifying_leaders(entries@, i + 1)[gi] == i);
                        }
                    }
                    assert forall|L: int|
                        #![trigger members(entries@, L)]
                        0 <= L < i + 1 && is_leader(entries@, L) && members(entries@, L).len()
                            >= 2 implies has_group(r@, entries@, L) by {
                        if L == i {
                            assert(group_matches(r@[r@.len() - 1], entries@, L));
                        } else {
                            assert(has_group(r_before, entries@, L));
                            let gi = choose|gi: int|
                                0 <= gi < r_before.len() && group_matches(
                                    #[trigger] r_before[gi],
                                    entries@,
                                    L,
                                );
                            assert(r@[gi] == r_before[gi]);
                            assert(group_matches(r@[gi], entries@, L));
                        }
                    }
                }
            } else {
                proof {
                    lemma_members_len(entries@, i as int, n as int);
                    // too few members: this leader yields no group
                    assert(members(entries@, i as int).len() == files@.len());
                    assert(qualifying_leaders(entries@, i + 1) == qualifying_leaders(
                        entries@,
                        i as int,
                    ));
                }
            }
            proof {
                // the mark set now reflects classes represented below `i + 1`
                assert forall|j2: int| 0 <= j2 < n implies processed@[j2] == covered(
                    entries@,
                    i + 1,
                    j2,
                ) by {
                    if processed@[j2] {
                        if old_processed[j2] {
                            assert(covered(entries@, i as int, j2));
                            let k = choose|k: int|
                                0 <= k < i && #[trigger] entries@[k].content@ == entries@[
                                j2].content@;
                            assert(0 <= k < i + 1);
                        } else {
                            assert(entries@[j2].content@ == entries@[i as int].content@);
                            assert(entries@[i as int].content@ == entries@[j2].content@);
                            assert(entries@[j2].content@.len() > 0);
                        }
                        assert(covered(entries@, i + 1, j2));
                    } else {
                        if covered(entries@, i + 1, j2) {
                            let k = choose|k: int|
                                0 <= k < i + 1 && #[trigger] entries@[k].content@ == entries@[
                                j2].content@;
                            if k < i {
                                assert(covered(entries@, i as int, j2));
                                assert(old_processed[j2]);
                                assert(processed@[j2]);
                            } else {
                                assert(k == i);
                                assert(entries@[j2].content@ == entries@[i as int].content@);
                                assert(processed@[j2] == (old_processed[j2] || (j2 < n
                                    && entries@[j2].content@ == entries@[i as int].content@)));
                                assert(processed@[j2]);
                            }
                        }
                    }
                }
            }
        } else {
            proof {
                // not a leader here: the entry is empty or its class was
                // seen earlier, so no group is due
                assert(!is_leader(entries@, i as int)) by {
                    if processed@[i as int] {
                        assert(covered(entries@, i as int, i as int));
                        let k = choose|k: int|
                            0 <= k < i && #[trigger] entries@[k].content@ == entries@[
                        i as int].content@;
                    } else {
                        assert(entries@[i as int].content@.len() == 0);
                    }
                }
                assert(qualifying_leaders(entries@, i + 1) == qualifying_leaders(
                    entries@,
                    i as int,
                ));
                // nothing newly covered: entry `i` is empty or its class
                // already had an earlier representative
                assert forall|j2: int| 0 <= j2 < n implies processed@[j2] == covered(
                    entries@,
                    i + 1,
                    j2,
                ) by {
                    if !processed@[j2] && covered(entries@, i + 1, j2) {
                        let k = choose|k: int|
                            0 <= k < i + 1 && #[trigger] entries@[k].content@ == entries@[
                        j2].content@;
                        if k == i {
                            if processed@[i as int] {
                                assert(covered(entries@, i as int, i as int));
                                let k2 = choose|k2: int|
                                    0 <= k2 < i && #[trigger] entries@[k2].content@ == entries@[
                                i as int].content@;
                                assert(entries@[k2].content@ == entries@[j2].content@);
                                assert(covered(entries@, i as int, j2));
                            } else {
                                assert(entries@[i as int].content@.len() == 0);
                                assert(entries@[j2].content@.len() > 0);
                            }
                        } else {
                            assert(covered(entries@, i as int, j2));
                        }
                    }
                }
            }
        }
        i += 1;
    }
    r
}

/// A leader's member list within the first `m` entries stays within
/// bounds and contains the leader itself once `m` passes it.
proof fn lemma_members_len(entries: Seq<FileData>, L: int, m: int)
    requires
        0 <= L < m <= entries.len(),
    ensures
        members_up_to(entries, L, m).len() >= 1,
    decreases m,
{
    if m - 1 == L {
        assert(entries[m - 1].content@ == entries[L].content@);
    } else {
        lemma_members_len(entries, L, m - 1);
    }
}

/// Member lists index into the entries, name entries whose content is
/// the leader's, and are strictly increasing.
proof fn lemma_members_props(entries: Seq<FileData>, L: int, m: int)
    requires
        0 <= m <= entries.len(),
    ensures
        forall|k: int|
            0 <= k < members_up_to(entries, L, m).len() ==> {
                &&& 0 <= #[trigger] members_up_to(entries, L, m)[k] < m
                &&& entries[members_up_to(entries, L, m)[k]].content@ == entries[L].content@
            },
        forall|k: int, l: int|
            0 <= k < l < members_up_to(entries, L, m).len() ==> members_up_to(entries, L, m)[k]
                < members_up_to(entries, L, m)[l],
    decreases m,
{
    if m > 0 {
        lemma_members_props(entries, L, m - 1);
        let prev = members_up_to(entries, L, m - 1);
        if entries[m - 1].content@ == entries[L].content@ {
            assert(members_up_to(entries, L, m) == prev.push(m - 1));
        }
    }
}

/// No two files in a duplicate group have different sizes: every member
/// of a group carries the group's shared size.
pub proof fn lemma_group_sizes_equal(g: DuplicateGroup, entries: Seq<FileData>)
    requires
        forall|i: int| 0 <= i < entries.len() ==> wf_data(#[trigger] entries[i]),
        sound_group(g, entries),
    ensures
        forall|k: int| 0 <= k < g.files@.len() ==> (#[trigger] g.files@[k]).size == g.size,
        forall|k: int, l: int|
            0 <= k < g.files@.len() && 0 <= l < g.files@.len() ==> g.files@[k].size
                == g.files@[l].size,
{
    let L = choose|L: int|
        is_leader(entries, L) && #[trigger] group_matches(g, entries, L) && members(
            entries,
            L,
        ).len() >= 2;
    lemma_members_props(entries, L, entries.len() as int);
    assert forall|k: int| 0 <= k < g.files@.len() implies (#[trigger] g.files@[k]).size
        == g.size by {
        let j = members(entries, L)[k];
        assert(g.files@[k] == entries[j].info);
        assert(entries[j].content@ == entries[L].content@);
        assert(wf_data(entries[j]));
    }
}

/// `w` names one distinct source entry per group member, all with
/// byte-identical content.
pub open spec fn distinct_equal_witnesses(g: DuplicateGroup, entries: Seq<FileData>, w: Seq<int>) -> bool {
    &&& w.len() == g.files@.len()
    &&& forall|k: int|
        0 <= k < w.len() ==> 0 <= #[trigger] w[k] < entries.len() && entries[w[k]].info
            == g.files@[k]
    &&& forall|k: int, l: int|
        0 <= k < w.len() && 0 <= l < w.len() ==> entries[#[trigger] w[k]].content@ == entries[
            #[trigger] w[l]
        ].content@
    &&& forall|k: int, l: int| 0 <= k < l < w.len() ==> w[k] != w[l]
}

/// Files grouped together have byte-identical content: a group's
/// members come from distinct entries whose content sequences are all
/// equal.
pub proof fn lemma_group_contents_equal(g: DuplicateGroup, entries: Seq<FileData>)
    requires
        sound_group(g, entries),
    ensures
        exists|w: Seq<int>| #[trigger] distinct_equal_witnesses(g, entries, w),
{
    let L = choose|L: int|
        is_leader(entries, L) && #[trigger] group_matches(g, entries, L) && members(
            entries,
            L,
        ).len() >= 2;
    lemma_members_props(entries, L, entries.len() as int);
    let w = members(entries, L);
    assert(w.len() == g.files@.len());
    assert(forall|k: int| 0 <= k < w.len() ==> entries[#[trigger] w[k]].info == g.files@[k]);
    assert(forall|k: int, l: int| 0 <= k < l < w.len() ==> w[k] != w[l]);
    assert(distinct_equal_witnesses(g, entries, w));
}

/// Files below the duplicate-detection thresholds produce no group: an
/// empty file, or a file whose size no other file shares, belongs to no
/// multi-member content class, so no group is built from it.
pub proof fn lemma_below_threshold_no_group(entries: Seq<FileData>, a: int)
    requires
        forall|i: int| 0 <= i < entries.len() ==> wf_data(#[trigger] entries[i]),
        0 <= a < entries.len(),
        entries[a].content@.len() == 0 || (forall|b: int|
            0 <= b < entries.len() && b != a ==> (#[trigger] entries[b].info).size
                != entries[a].info.size),
    ensures
        forall|L: int|
            is_leader(entries, L) && members(entries, L).len() >= 2 ==> !members(
                entries,
                L,
            ).contains(a),
{
    assert forall|L: int|
        is_leader(entries, L) && members(entries, L).len() >= 2 implies !members(
        entries,
        L,
    ).contains(a) by {
        lemma_members_props(entries, L, entries.len() as int);
        let w = members(entries, L);
        if w.contains(a) {
            let k = choose|k: int| 0 <= k < w.len() && w[k] == a;
            assert(entries[a].content@ == entries[L].content@);
            assert(entries[L].content@.len() > 0);
            if entries[a].content@.len() == 0 {
            } else {
                // some other member shares the content, hence the size
                let l: int = if k == 0 {
                    1
                } else {
                    0
                };
                let b = w[l];
                assert(b != a);
                assert(entries[b].content@ == entries[L].content@);
                assert(wf_data(entries[b]) && wf_data(entries[a]));
                assert(entries[b].info.size == entries[a].info.size);
            }
        }
    }
}

} // verus!
verus! {

/// The number of set bits in a byte.
pub open spec fn popcount(b: u8) -> nat
    decreases b,
{
    if b == 0 {
        0
    } else {
        ((b % 2) + popcount(b / 2)) as nat
    }
}

fn popcount_exec(b: u8) -> (r: u32)
    ensures
        r == popcount(b),
        r <= 255,
    decreases b,
{
    proof {
        lemma_popcount_bound(b);
    }
    if b == 0 {
        0
    } else {
        let rest = popcount_exec(b / 2);
        assert(popcount(b) == ((b % 2) + popcount(b / 2)) as nat);
        (b % 2) as u32 + rest
    }
}

proof fn lemma_popcount_bound(b: u8)
    ensures
        popcount(b) <= b,
    decreases b,
{
    if b > 0 {
        lemma_popcount_bound(b / 2);
    }
}

/// The Hamming distance between two perceptual hashes: the number of
/// differing bits, over the bytes both hashes have.
pub open spec fn hamming(a: Seq<u8>, b: Seq<u8>) -> nat
    decreases a.len(),
{
    if a.len() == 0 || b.len() == 0 {
        0
    } else {
        popcount(a.first() ^ b.first()) + hamming(a.drop_first(), b.drop_first())
    }
}

/// The Hamming distance is symmetric.
pub proof fn lemma_hamming_symmetric(a: Seq<u8>, b: Seq<u8>)
    ensures
        hamming(a, b) == hamming(b, a),
    decreases a.len(),
{
    if a.len() > 0 && b.len() > 0 {
        lemma_hamming_symmetric(a.drop_first(), b.drop_first());
        let x = a.first();
        let y = b.first();
        assert((x ^ y) == (y ^ x)) by (bit_vector);
    }
}

proof fn lemma_hamming_bound(a: Seq<u8>, b: Seq<u8>)
    ensures
        hamming(a, b) <= 255 * a.len(),
    decreases a.len(),
{
    if a.len() > 0 && b.len() > 0 {
        lemma_hamming_bound(a.drop_first(), b.drop_first());
        lemma_popcount_bound(a.first() ^ b.first());
    }
}

/// The Hamming distance between two hashes, which must have the same
/// length and at most 65536 bytes.
pub fn hamming_exec(a: &Vec<u8>, b: &Vec<u8>) -> (r: u32)
    requires
        a@.len() == b@.len(),
        a@.len() <= 65536,
    ensures
        r == hamming(a@, b@),
{
    let n = a.len();
    let mut r: u32 = 0;
    let mut i: usize = 0;
    proof {
        assert(a@.skip(0) =~= a@);
        assert(b@.skip(0) =~= b@);
    }
    while i < n
        invariant
            n == a@.len() == b@.len() <= 65536,
            i <= n,
            r == hamming(a@, b@) - hamming(a@.skip(i as int), b@.skip(i as int)),
            r <= 255 * i,
        decreases n - i,
    {
        proof {
            lemma_hamming_bound(a@.skip(i as int), b@.skip(i as int));
            assert(a@.skip(i as int).first() == a@[i as int]);
            assert(a@.skip(i as int).drop_first() =~= a@.skip(i + 1));
            assert(b@.skip(i as int).drop_first() =~= b@.skip(i + 1));
            lemma_popcount_bound(a@[i as int] ^ b@[i as int]);
        }
        r = r + popcount_exec(a[i] ^ b[i]);
        i += 1;
    }
    proof {
        assert(a@.skip(n as int) =~= Seq::<u8>::empty());
    }
    r
}

/// One image record together with its perceptual hash bytes.
pub struct HashedImage {
    pub info: FileInfo,
    pub hash: Vec<u8>,
}

/// One representative image and the images within the distance
/// threshold of it.
#[derive(Debug)]
pub struct SimilarGroup {
    /// The first image encountered in the group.
    pub representative: FileInfo,
    /// The similar images, each with its Hamming distance from the
    /// representative.
    pub similar: Vec<(FileInfo, u32)>,
}

impl SimilarGroup {
    /// The total size of the similar files (the representative not
    /// counted), saturating at `u64::MAX`.
    pub fn similar_space(&self) -> (r: u64)
        ensures
            r == if sum_pair_sizes(self.similar@) <= u64::MAX {
                sum_pair_sizes(self.similar@)
            } else {
                u64::MAX as nat
            },
    {
        let mut r: u64 = 0;
        let mut i: usize = 0;
        while i < self.similar.len()
            invariant
                i <= self.similar@.len(),
                r == if sum_pair_sizes(self.similar@.subrange(0, i as int)) <= u64::MAX {
                    sum_pair_sizes(self.similar@.subrange(0, i as int))
                } else {
                    u64::MAX as nat
                },
            decreases self.similar@.len() - i,
        {
            proof {
                let p = self.similar@.subrange(0, i + 1);
                assert(p.drop_last() =~= self.similar@.subrange(0, i as int));
                assert(p.last() == self.similar@[i as int]);
            }
            let s = self.similar[i].0.size;
            if r > u64::MAX - s {
                r = u64::MAX;
            } else {
                r = r + s;
            }
            i += 1;
        }
        assert(self.similar@.subrange(0, self.similar@.len() as int) =~= self.similar@);
        r
    }
}

/// The total size of the files in a (record, distance) list.
pub open spec fn sum_pair_sizes(s: Seq<(FileInfo, u32)>) -> nat
    decreases s.len(),
{
    if s.len() == 0 {
        0
    } else {
        sum_pair_sizes(s.drop_last()) + s.last().0.size as nat
    }
}

/// Image `j` lies within the distance threshold of image `rep`.
pub open spec fn within_threshold(images: Seq<HashedImage>, t: u32, rep: int, j: int) -> bool {
    hamming(images[rep].hash@, images[j].hash@) <= t
}

/// The members the greedy grouping gives representative `rep`, among
/// the images after `rep` and before `m`: those not already used and
/// within the threshold, in index order.
pub open spec fn greedy_members_up_to(
    images: Seq<HashedImage>,
    t: u32,
    rep: int,
    used: Set<int>,
    m: int,
) -> Seq<int>
    decreases m - rep,
{
    if m <= rep + 1 {
        Seq::empty()
    } else {
        let rest = greedy_members_up_to(images, t, rep, used, m - 1);
        if !used.contains(m - 1) && within_threshold(images, t, rep, m - 1) {
            rest.push(m - 1)
        } else {
            rest
        }
    }
}

/// The members the greedy grouping gives representative `rep`.
pub open spec fn greedy_members(images: Seq<HashedImage>, t: u32, rep: int, used: Set<int>) -> Seq<
    int,
> {
    greedy_members_up_to(images, t, rep, used, images.len() as int)
}

/// The used set extended by a member list.
pub open spec fn mark_used(used: Set<int>, mems: Seq<int>) -> Set<int>
    decreases mems.len(),
{
    if mems.len() == 0 {
        used
    } else {
        mark_used(used, mems.drop_last()).insert(mems.last())
    }
}

/// The greedy grouping after the first `i` images have had their turn:
/// the groups so far, as (representative, members) index pairs in the
/// order they were formed, and the set of used indices.
pub open spec fn greedy_state(images: Seq<HashedImage>, t: u32, i: int) -> (
    Seq<(int, Seq<int>)>,
    Set<int>,
)
    decreases i,
{
    if i <= 0 {
        (Seq::empty(), Set::empty())
    } else {
        let prev = greedy_state(images, t, i - 1);
        if prev.1.contains(i - 1) {
            prev
        } else {
            let mems = greedy_members(images, t, i - 1, prev.1);
            if mems.len() == 0 {
                prev
            } else {
                (prev.0.push((i - 1, mems)), mark_used(prev.1, mems).insert(i - 1))
            }
        }
    }
}

/// The whole greedy grouping, as (representative, members) index pairs.
pub open spec fn greedy_groups(images: Seq<HashedImage>, t: u32) -> Seq<(int, Seq<int>)> {
    greedy_state(images, t, images.len() as int).0
}

/// The group value that realizes one index-level group: the
/// representative's record, and each member's record with its true
/// Hamming distance from the representative.
pub open spec fn group_realizes(
    g: SimilarGroup,
    images: Seq<HashedImage>,
    entry: (int, Seq<int>),
) -> bool {
    &&& 0 <= entry.0 < images.len()
    &&& g.representative == images[entry.0].info
    &&& g.similar@.len() == entry.1.len()
    &&& forall|k: int|
        0 <= k < entry.1.len() ==> {
            &&& entry.0 < #[trigger] entry.1[k] < images.len()
            &&& (#[trigger] g.similar@[k]).0 == images[entry.1[k]].info
            &&& g.similar@[k].1 == hamming(images[entry.0].hash@, images[entry.1[k]].hash@)
        }
}

proof fn lemma_mark_used_contains(used: Set<int>, mems: Seq<int>, x: int)
    ensures
        mark_used(used, mems).contains(x) <==> used.contains(x) || mems.contains(x),
    decreases mems.len(),
{
    if mems.len() > 0 {
        lemma_mark_used_contains(used, mems.drop_last(), x);
        if mems.contains(x) {
            let k = choose|k: int| 0 <= k < mems.len() && mems[k] == x;
            if k < mems.len() - 1 {
                assert(mems.drop_last()[k] == x);
            }
        }
        if mems.drop_last().contains(x) {
            let k = choose|k: int| 0 <= k < mems.len() - 1 && mems.drop_last()[k] == x;
            assert(mems[k] == x);
        }
    }
}

/// Member lists stay within `(rep, m)`, are strictly increasing, and
/// record only unused images within the threshold; an empty list means
/// no such image remains.
proof fn lemma_greedy_members_props(
    images: Seq<HashedImage>,
    t: u32,
    rep: int,
    used: Set<int>,
    m: int,
)
    ensures
        forall|k: int|
            0 <= k < greedy_members_up_to(images, t, rep, used, m).len() ==> rep < (
            #[trigger] greedy_members_up_to(images, t, rep, used, m)[k]) < m,
        forall|k: int|
            0 <= k < greedy_members_up_to(images, t, rep, used, m).len() ==> !used.contains(
                #[trigger] greedy_members_up_to(images, t, rep, used, m)[k],
            ),
        forall|k: int, l: int|
            0 <= k < l < greedy_members_up_to(images, t, rep, used, m).len()
                ==> greedy_members_up_to(images, t, rep, used, m)[k] < greedy_members_up_to(
                images,
                t,
                rep,
                used,
                m,
            )[l],
        greedy_members_up_to(images, t, rep, used, m).len() == 0 ==> forall|j: int|
            rep < j < m ==> used.contains(j) || !within_threshold(images, t, rep, j),
    decreases m - rep,
{
    if m > rep + 1 {
        lemma_greedy_members_props(images, t, rep, used, m - 1);
        let rest = greedy_members_up_to(images, t, rep, used, m - 1);
        let cur = greedy_members_up_to(images, t, rep, used, m);
        if !used.contains(m - 1) && within_threshold(images, t, rep, m - 1) {
            assert(cur == rest.push(m - 1));
            assert forall|k: int, l: int| 0 <= k < l < cur.len() implies cur[k] < cur[l] by {
                if l < rest.len() {
                    assert(cur[k] == rest[k] && cur[l] == rest[l]);
                } else {
                    assert(cur[l] == m - 1);
                    assert(cur[k] == rest[k]);
                    assert(rest[k] < m - 1);
                }
            }
        } else {
            assert(cur == rest);
        }
    }
}

/// A grouping with no groups has used nothing.
proof fn lemma_greedy_no_groups(images: Seq<HashedImage>, t: u32, i: int)
    requires
        greedy_state(images, t, i).0.len() == 0,
    ensures
        greedy_state(images, t, i).1 == Set::<int>::empty(),
    decreases i,
{
    if i > 0 {
        let prev = greedy_state(images, t, i - 1);
        assert(prev.0.len() == 0) by {
            if prev.0.len() > 0 {
                assert(greedy_state(images, t, i).0.len() >= prev.0.len());
            }
        }
        lemma_greedy_no_groups(images, t, i - 1);
    }
}

/// Image index `x` stands in the index-level group `e`, as its
/// representative or as a member.
pub open spec fn in_index_group(e: (int, Seq<int>), x: int) -> bool {
    e.0 == x || e.1.contains(x)
}

proof fn lemma_greedy_state_disjoint(images: Seq<HashedImage>, t: u32, i: int)
    ensures
        forall|g: int, x: int|
            0 <= g < greedy_state(images, t, i).0.len() && #[trigger] in_index_group(
                greedy_state(images, t, i).0[g],
                x,
            ) ==> greedy_state(images, t, i).1.contains(x),
        forall|g1: int, g2: int, x: int|
            0 <= g1 < g2 < greedy_state(images, t, i).0.len() ==> !(#[trigger] in_index_group(
                greedy_state(images, t, i).0[g1],
                x,
            ) && #[trigger] in_index_group(greedy_state(images, t, i).0[g2], x)),
        forall|g: int, k: int, l: int|
            #![trigger greedy_state(images, t, i).0[g].1[k], greedy_state(images, t, i).0[g].1[l]]
            0 <= g < greedy_state(images, t, i).0.len() && 0 <= k < l < greedy_state(
                images,
                t,
                i,
            ).0[g].1.len() ==> greedy_state(images, t, i).0[g].1[k] < greedy_state(
                images,
                t,
                i,
            ).0[g].1[l],
        forall|g: int, k: int|
            #![trigger greedy_state(images, t, i).0[g].1[k]]
            0 <= g < greedy_state(images, t, i).0.len() && 0 <= k < greedy_state(
                images,
                t,
                i,
            ).0[g].1.len() ==> greedy_state(images, t, i).0[g].0 < greedy_state(
                images,
                t,
                i,
            ).0[g].1[k],
    decreases i,
{
    if i > 0 {
        lemma_greedy_state_disjoint(images, t, i - 1);
        let prev = greedy_state(images, t, i - 1);
        let cur = greedy_state(images, t, i);
        if !prev.1.contains(i - 1) {
            let mems = greedy_members(images, t, i - 1, prev.1);
            if mems.len() > 0 {
                lemma_greedy_members_props(images, t, i - 1, prev.1, images.len() as int);
                assert(cur.0 == prev.0.push((i - 1, mems)));
                assert(cur.1 == mark_used(prev.1, mems).insert(i - 1));
                // the new group's indices were all unused, so they lie in
                // no earlier group; the used set absorbs them
                assert forall|g: int, x: int|
                    0 <= g < cur.0.len() && #[trigger] in_index_group(cur.0[g], x) implies
                    cur.1.contains(x) by {
                    lemma_mark_used_contains(prev.1, mems, x);
                    if g < prev.0.len() {
                        assert(cur.0[g] == prev.0[g]);
                        assert(prev.1.contains(x));
                    } else {
                        assert(cur.0[g] == (i - 1, mems));
                    }
                }
                assert forall|g1: int, g2: int, x: int|
                    0 <= g1 < g2 < cur.0.len() implies !(#[trigger] in_index_group(cur.0[g1], x)
                    && #[trigger] in_index_group(cur.0[g2], x)) by {
                    if g2 < prev.0.len() {
                        assert(cur.0[g1] == prev.0[g1] && cur.0[g2] == prev.0[g2]);
                    } else {
                        assert(cur.0[g2] == (i - 1, mems));
                        assert(cur.0[g1] == prev.0[g1]);
                        if in_index_group(prev.0[g1], x) && in_index_group((i - 1, mems), x) {
                            assert(prev.1.contains(x));
                            if mems.contains(x) {
                                let k = choose|k: int| 0 <= k < mems.len() && mems[k] == x;
                                assert(!prev.1.contains(mems[k]));
                            } else {
                                assert(x == i - 1);
                            }
                        }
                    }
                }
                assert forall|g: int, k: int, l: int|
                    #![trigger cur.0[g].1[k], cur.0[g].1[l]]
                    0 <= g < cur.0.len() && 0 <= k < l < cur.0[g].1.len() implies cur.0[g].1[k]
                        < cur.0[g].1[l] by {
                    if g < prev.0.len() {
                        assert(cur.0[g] == prev.0[g]);
                    } else {
                        assert(cur.0[g] == (i - 1, mems));
                    }
                }
                assert forall|g: int, k: int|
                    #![trigger cur.0[g].1[k]]
                    0 <= g < cur.0.len() && 0 <= k < cur.0[g].1.len() implies cur.0[g].0 < cur.0[
                g].1[k] by {
                    if g < prev.0.len() {
                        assert(cur.0[g] == prev.0[g]);
                    } else {
                        assert(cur.0[g] == (i - 1, mems));
                    }
                }
            }
        }
    }
}

/// No image index stands in two greedy groups, nor twice in one: the
/// member lists are strictly increasing, every member comes strictly
/// after its representative, and distinct groups share no index.
pub proof fn lemma_similar_groups_disjoint(images: Seq<HashedImage>, t: u32)
    ensures
        forall|g1: int, g2: int, x: int|
            0 <= g1 < g2 < greedy_groups(images, t).len() ==> !(#[trigger] in_index_group(
                greedy_groups(images, t)[g1],
                x,
            ) && #[trigger] in_index_group(greedy_groups(images, t)[g2], x)),
        forall|g: int, k: int, l: int|
            #![trigger greedy_groups(images, t)[g].1[k], greedy_groups(images, t)[g].1[l]]
            0 <= g < greedy_groups(images, t).len() && 0 <= k < l < greedy_groups(
                images,
                t,
            )[g].1.len() ==> greedy_groups(images, t)[g].1[k] < greedy_groups(images, t)[g].1[l],
        forall|g: int, k: int|
            #![trigger greedy_groups(images, t)[g].1[k]]
            0 <= g < greedy_groups(images, t).len() && 0 <= k < greedy_groups(
                images,
                t,
            )[g].1.len() ==> greedy_groups(images, t)[g].0 < greedy_groups(images, t)[g].1[k],
{
    lemma_greedy_state_disjoint(images, t, images.len() as int);
}

/// Groups visually similar images greedily, exactly as [`greedy_groups`]
/// prescribes: each image in index order, if not already used, collects
/// every later unused image whose perceptual hash lies within
/// `threshold` of its own, and becomes a group's representative when it
/// collects at least one. Each image therefore appears in at most one
/// group, and never as its own member. Whenever any pair of images lies
/// within the threshold, at least one group is returned; fewer than two
/// images yield none.
pub fn find_similar_images(images: &Vec<HashedImage>, threshold: u32) -> (r: Vec<SimilarGroup>)
    requires
        forall|i: int, j: int|
            0 <= i < images@.len() && 0 <= j < images@.len()
                ==> (#[trigger] images@[i].hash@).len() == (#[trigger] images@[j].hash@).len(),
        forall|i: int| 0 <= i < images@.len() ==> (#[trigger] images@[i].hash@).len() <= 65536,
    ensures
        r@.len() == greedy_groups(images@, threshold).len(),
        forall|gi: int|
            0 <= gi < r@.len() ==> group_realizes(
                #[trigger] r@[gi],
                images@,
                greedy_groups(images@, threshold)[gi],
            ),
        forall|gi: int|
            0 <= gi < r@.len() ==> (#[trigger] r@[gi]).similar@.len() >= 1 && (forall|k: int|
                0 <= k < r@[gi].similar@.len() ==> (#[trigger] r@[gi].similar@[k]).1 <= threshold),
        (exists|a: int, b: int|
            0 <= a < b < images@.len() && hamming(images@[a].hash@, images@[b].hash@)
                <= threshold) ==> r@.len() > 0,
        images@.len() < 2 ==> r@.len() == 0,
{
    let n = images.len();
    let mut used: Vec<bool> = Vec::new();
    let mut i0: usize = 0;
    while i0 < n
        invariant
            used@.len() == i0 <= n,
            forall|k: int| 0 <= k < i0 ==> !(#[trigger] used@[k]),
        decreases n - i0,
    {
        used.push(false);
        i0 += 1;
    }
    let mut r: Vec<SimilarGroup> = Vec::new();
    let mut i: usize = 0;
    while i < n
        invariant
            n == images@.len(),
            used@.len() == n,
            i <= n,
            forall|i2: int, j2: int|
                0 <= i2 < images@.len() && 0 <= j2 < images@.len() ==> (#[trigger] images@[
                i2].hash@).len() == (#[trigger] images@[j2].hash@).len(),
            forall|i2: int| 0 <= i2 < images@.len() ==> (#[trigger] images@[i2].hash@).len() <= 65536,
            r@.len() == greedy_state(images@, threshold, i as int).0.len(),
            forall|gi: int|
                0 <= gi < r@.len() ==> group_realizes(
                    #[trigger] r@[gi],
                    images@,
                    greedy_state(images@, threshold, i as int).0[gi],
                ),
            forall|gi: int|
                0 <= gi < r@.len() ==> (#[trigger] r@[gi]).similar@.len() >= 1 && (forall|k: int|
                    0 <= k < r@[gi].similar@.len() ==> (#[trigger] r@[gi].similar@[k]).1
                        <= threshold),
            forall|k: int|
                0 <= k < n ==> #[trigger] used@[k] == greedy_state(
                    images@,
                    threshold,
                    i as int,
                ).1.contains(k),
            r@.len() == 0 ==> forall|a: int, b: int|
                0 <= a < i && a < b < n ==> hamming(images@[a].hash@, images@[b].hash@)
                    > threshold,
            n < 2 ==> r@.len() == 0,
        decreases n - i,
    {
        let ghost st = greedy_state(images@, threshold, i as int);
        if !used[i] {
            assert(!st.1.contains(i as int));
            let mut similar: Vec<(FileInfo, u32)> = Vec::new();
            let mut j: usize = i + 1;
            while j < n
                invariant
                    n == images@.len(),
                    used@.len() == n,
                    i < n,
                    i < j,
                    j <= n,
                    st == greedy_state(images@, threshold, i as int),
                    !st.1.contains(i as int),
                    forall|i2: int, j2: int|
                        0 <= i2 < images@.len() && 0 <= j2 < images@.len() ==> (#[trigger] images@[
                        i2].hash@).len() == (#[trigger] images@[j2].hash@).len(),
                    forall|i2: int| 0 <= i2 < images@.len() ==> (#[trigger] images@[
                    i2].hash@).len() <= 65536,
                    similar@.len() == greedy_members_up_to(
                        images@,
                        threshold,
                        i as int,
                        st.1,
                        j as int,
                    ).len(),
                    forall|k: int|
                        0 <= k < similar@.len() ==> {
                            &&& i < greedy_members_up_to(images@, threshold, i as int, st.1, j as int)[k] < n
                            &&& (#[trigger] similar@[k]).0 == images@[greedy_members_up_to(
                                images@,
                                threshold,
                                i as int,
                                st.1,
                                j as int,
                            )[k]].info
                            &&& similar@[k].1 == hamming(
                                images@[i as int].hash@,
                                images@[greedy_members_up_to(
                                    images@,
                                    threshold,
                                    i as int,
                                    st.1,
                                    j as int,
                                )[k]].hash@,
                            )
                            &&& similar@[k].1 <= threshold
                        },
                    forall|k: int|
                        0 <= k < n ==> #[trigger] used@[k] == mark_used(
                            st.1,
                            greedy_members_up_to(images@, threshold, i as int, st.1, j as int),
                        ).contains(k),
                decreases n - j,
            {
                let ghost mems = greedy_members_up_to(images@, threshold, i as int, st.1, j as int);
                proof {
                    lemma_greedy_members_props(images@, threshold, i as int, st.1, j as int);
                    lemma_mark_used_contains(st.1, mems, j as int);
                    assert(!mems.contains(j as int)) by {
                        if mems.contains(j as int) {
                            let k = choose|k: int| 0 <= k < mems.len() && mems[k] == j;
                        }
                    }
                    assert(used@[j as int] == st.1.contains(j as int));
                }
                if !used[j] {
                    let distance = hamming_exec(&images[i].hash, &images[j].hash);
                    if distance <= threshold {
                        similar.push((images[j].info.clone(), distance));
                        used.set(j, true);
                        proof {
                            let mems2 = greedy_members_up_to(
                                images@,
                                threshold,
                                i as int,
                                st.1,
                                j + 1,
                            );
                            assert(mems2 == mems.push(j as int));
                            assert forall|k: int| 0 <= k < n implies #[trigger] used@[k]
                                == mark_used(st.1, mems2).contains(k) by {
                                assert(mark_used(st.1, mems2) == mark_used(st.1, mems).insert(
                                    j as int,
                                )) by {
                                    assert(mems2.drop_last() =~= mems);
                                }
                            }
                        }
                    } else {
                        proof {
                            assert(greedy_members_up_to(images@, threshold, i as int, st.1, j + 1)
                                == mems);
                        }
                    }
                } else {
                    proof {
                        assert(st.1.contains(j as int));
                        assert(greedy_members_up_to(images@, threshold, i as int, st.1, j + 1)
                            == mems);
                    }
                }
                j += 1;
            }
            let ghost mems = greedy_members(images@, threshold, i as int, st.1);
            proof {
                lemma_greedy_members_props(images@, threshold, i as int, st.1, n as int);
            }
            if similar.len() > 0 {
                used.set(i, true);
                let g = SimilarGroup { representative: images[i].info.clone(), similar };
                let ghost r_before = r@;
                r.push(g);
                proof {
                    let st2 = greedy_state(images@, threshold, i + 1);
                    assert(st2.0 == st.0.push((i as int, mems)));
                    assert(st2.1 == mark_used(st.1, mems).insert(i as int));
                    assert(group_realizes(g, images@, (i as int, mems)));
                    assert forall|gi: int| 0 <= gi < r@.len() implies group_realizes(
                        #[trigger] r@[gi],
                        images@,
                        st2.0[gi],
                    ) by {
                        if gi < r_before.len() {
                            assert(r@[gi] == r_before[gi]);
                            assert(st2.0[gi] == st.0[gi]);
                        } else {
                            assert(r@[gi] == g);
                        }
                    }
                }
            } else {
                proof {
                    assert(mems.len() == 0);
                    let st2 = greedy_state(images@, threshold, i + 1);
                    assert(st2 == st);
                    if r@.len() == 0 {
                        // the used set is empty, so every later image was
                        // tested against this one and none lay within
                        lemma_greedy_no_groups(images@, threshold, i as int);
                        assert forall|a: int, b: int|
                            0 <= a < i + 1 && a < b < n implies hamming(
                            images@[a].hash@,
                            images@[b].hash@,
                        ) > threshold by {
                            if a == i {
                                assert(st.1.contains(b) || !within_threshold(
                                    images@,
                                    threshold,
                                    i as int,
                                    b,
                                ));
                                assert(!st.1.contains(b));
                            }
                        }
                    }
                }
            }
        } else {
            proof {
                assert(st.1.contains(i as int));
                assert(greedy_state(images@, threshold, i + 1) == st);
                if r@.len() == 0 {
                    lemma_greedy_no_groups(images@, threshold, i as int);
                }
            }
        }
        i += 1;
    }
    r
}

/// The similarity percentage shown for a Hamming distance against a
/// 256-bit hash: `100 - distance * 100 / 256`, clamped to `[0, 100]`.
pub fn similarity_percent(distance: u32) -> (r: u32)
    ensures
        r == 100 - (if distance * 100 / 256 <= 100 {
            (distance as nat) * 100 / 256
        } else {
            100 as nat
        }),
{
    let scaled: u64 = (distance as u64) * 100 / 256;
    if scaled > 100 {
        100 - 100
    } else {
        100 - (scaled as u32)
    }
}

} // verus!
