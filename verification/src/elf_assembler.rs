//! The assembler: a growable machine-code buffer plus a label-relocation
//! table.
//!
//! Each instruction method appends that instruction's fixed encoding to the
//! buffer.  Branch instructions name a [`Label`]; a label starts *pending*,
//! collects the offsets of 4-byte placeholder windows emitted for branches
//! that reach it, and is *resolved* exactly once by [`ElfAssembler::label`],
//! which back-patches every recorded window with the little-endian signed
//! displacement `target - (window_offset + 4)`.  [`ElfAssembler::assemble`]
//! wraps the finished code in the ELF container described in [`crate::elf`].

use vstd::prelude::*;

use crate::bytes::{le_bytes, u32_le, i32_le, decode_i32, lemma_decode_i32_le, push_le_bytes,
    write_u32_le_at};
use crate::elf::{BSS_VIRTUAL_ADDRESS, MAX_VIRTUAL_ADDRESS, MAX_TEXT_SIZE, CODE_FILE_OFFSET,
    elf_image, lemma_elf_prefix_len, push_elf_prefix};

verus! {

/// A branch target, handed out by [`ElfAssembler::allocate_label`].
pub type Label = usize;

/// A memory-region handle: a virtual address inside the zero-fill segment.
pub type Address = u64;

/// Exec-side state of one label: the patch-site offsets it still owes, or
/// the code offset it resolved to.
pub enum LabelState {
    Unpopulated(Vec<usize>),
    Populated(usize),
}

/// Spec-side state of one label.
#[verifier::ext_equal]
pub enum LabelView {
    Pending(Seq<int>),
    Resolved(int),
}

impl View for LabelState {
    type V = LabelView;

    open spec fn view(&self) -> LabelView {
        match self {
            LabelState::Unpopulated(sites) => LabelView::Pending(
                sites@.map_values(|s: usize| s as int),
            ),
            LabelState::Populated(d) => LabelView::Resolved(*d as int),
        }
    }
}

/// One branch instruction on record: its 4-byte displacement window starts
/// at code offset `site` and its target is label number `label`.
#[verifier::ext_equal]
pub struct BranchRef {
    pub site: int,
    pub label: int,
}

/// The assembler's mathematical state: the code emitted so far, the label
/// table, the zero-fill allocation pointer, and every branch emitted.
#[verifier::ext_equal]
pub struct AsmView {
    pub code: Seq<u8>,
    pub labels: Seq<LabelView>,
    pub alloc: int,
    pub branches: Seq<BranchRef>,
}

/// The 4-byte zero placeholder left behind a branch to a pending label.
pub open spec fn zero4() -> Seq<u8> {
    seq![0u8, 0u8, 0u8, 0u8]
}

impl AsmView {
    /// `site` is a placeholder window: in bounds and still zero-filled.
    pub open spec fn placeholder_ok(self, site: int) -> bool {
        &&& 0 <= site
        &&& site + 4 <= self.code.len()
        &&& self.code.subrange(site, site + 4) == zero4()
    }

    /// Label `l`'s entry is sound: a pending label's recorded sites are
    /// placeholder windows; a resolved label's offset lies in the code.
    pub open spec fn label_entry_ok(self, l: int) -> bool {
        match self.labels[l] {
            LabelView::Pending(sites) => forall|k: int|
                0 <= k < sites.len() ==> self.placeholder_ok(#[trigger] sites[k]),
            LabelView::Resolved(d) => 0 <= d <= self.code.len(),
        }
    }

    /// The placeholder window at `site` is owed to pending label `l`.
    pub open spec fn pending_site(self, l: int, site: int) -> bool {
        &&& 0 <= l < self.labels.len()
        &&& match self.labels[l] {
            LabelView::Pending(sites) => sites.contains(site),
            LabelView::Resolved(_) => false,
        }
    }

    /// Distinct placeholder windows never overlap, so patching one never
    /// corrupts another.
    pub open spec fn sites_disjoint(self) -> bool {
        forall|l1: int, s1: int, l2: int, s2: int|
            #[trigger] self.pending_site(l1, s1) && #[trigger] self.pending_site(l2, s2)
                && (l1 != l2 || s1 != s2) ==> s1 + 4 <= s2 || s2 + 4 <= s1
    }

    /// A branch's displacement window never overlaps a placeholder window
    /// other than its own, so patching never corrupts an encoded branch.
    pub open spec fn branch_sites_clear(self) -> bool {
        forall|i: int, l: int, s: int|
            0 <= i < self.branches.len() && #[trigger] self.pending_site(l, s)
                && !((#[trigger] self.branches[i]).label == l && self.branches[i].site == s)
                ==> self.branches[i].site + 4 <= s || s + 4 <= self.branches[i].site
    }

    /// Branch `i` refers to a real label; while that label is pending the
    /// branch's window is on its patch list, and once it is resolved the
    /// window decodes to the displacement that reaches it.
    pub open spec fn branch_ok(self, i: int) -> bool {
        let b = self.branches[i];
        &&& 0 <= b.label < self.labels.len()
        &&& 0 <= b.site
        &&& b.site + 4 <= self.code.len()
        &&& match self.labels[b.label] {
            LabelView::Pending(sites) => sites.contains(b.site),
            LabelView::Resolved(d) => decode_i32(self.code.subrange(b.site, b.site + 4)) == d
                - (b.site + 4),
        }
    }

    /// The assembler's invariant.
    pub open spec fn wf(self) -> bool {
        &&& BSS_VIRTUAL_ADDRESS <= self.alloc <= MAX_VIRTUAL_ADDRESS + 1
        &&& forall|l: int| 0 <= l < self.labels.len() ==> self.label_entry_ok(l)
        &&& self.sites_disjoint()
        &&& self.branch_sites_clear()
        &&& forall|i: int| 0 <= i < self.branches.len() ==> self.branch_ok(i)
    }

    /// All labels have been resolved: assembly may finish.
    pub open spec fn all_resolved(self) -> bool {
        forall|l: int| 0 <= l < self.labels.len() ==> (#[trigger] self.labels[l]) is Resolved
    }
}

/// The code offset a resolved label points at.
pub open spec fn label_offset(v: AsmView, l: int) -> int {
    match v.labels[l] {
        LabelView::Resolved(d) => d,
        LabelView::Pending(_) => -1,
    }
}

/// `post` is `pre` with `bytes` appended to the code and nothing else
/// touched.
pub open spec fn appended(pre: AsmView, post: AsmView, bytes: Seq<u8>) -> bool {
    &&& post.code == pre.code + bytes
    &&& post.labels == pre.labels
    &&& post.branches == pre.branches
    &&& post.alloc == pre.alloc
}

/// What a branch to label `l` does: against a pending label it appends the
/// opcode plus a zero placeholder and records the window; against a
/// resolved label it appends the opcode plus the encoded backward
/// displacement.  Either way the branch goes on record.
pub open spec fn branch_result(pre: AsmView, post: AsmView, l: int, opcode: Seq<u8>) -> bool {
    let site = pre.code.len() + opcode.len();
    &&& post.alloc == pre.alloc
    &&& post.branches == pre.branches.push(BranchRef { site: site as int, label: l })
    &&& match pre.labels[l] {
        LabelView::Pending(sites) => {
            &&& post.code == pre.code + opcode + zero4()
            &&& post.labels == pre.labels.update(
                l,
                LabelView::Pending(sites.push(site as int)),
            )
        },
        LabelView::Resolved(d) => {
            &&& post.code == pre.code + opcode + i32_le(d - (site + 4))
            &&& post.labels == pre.labels
        },
    }
}

/// A subrange of a prefix is a subrange of the whole.
pub proof fn lemma_prefix_subrange(big: Seq<u8>, small: Seq<u8>, a: int, b: int)
    requires
        small.len() <= big.len(),
        big.subrange(0, small.len() as int) == small,
        0 <= a <= b <= small.len(),
    ensures
        big.subrange(a, b) == small.subrange(a, b),
{
    assert forall|i: int| 0 <= i < b - a implies big.subrange(a, b)[i] == small.subrange(a, b)[i]
    by {
        assert(small[a + i] == big.subrange(0, small.len() as int)[a + i]);
    }
    assert(big.subrange(a, b) =~= small.subrange(a, b));
}

/// Appending code preserves the invariant: existing windows, placeholders
/// and encoded displacements are all left in place.
proof fn lemma_wf_append(pre: AsmView, post: AsmView, bytes: Seq<u8>)
    requires
        pre.wf(),
        appended(pre, post, bytes),
    ensures
        post.wf(),
{
    let n = pre.code.len() as int;
    assert(post.code.subrange(0, n) =~= pre.code);
    assert forall|l: int| 0 <= l < post.labels.len() implies post.label_entry_ok(l) by {
        assert(pre.label_entry_ok(l));
        match pre.labels[l] {
            LabelView::Pending(sites) => {
                assert forall|k: int| 0 <= k < sites.len() implies post.placeholder_ok(
                    #[trigger] sites[k],
                ) by {
                    assert(pre.placeholder_ok(sites[k]));
                    lemma_prefix_subrange(post.code, pre.code, sites[k], sites[k] + 4);
                }
            },
            LabelView::Resolved(d) => {},
        }
    }
    assert forall|l1: int, s1: int, l2: int, s2: int|
        #[trigger] post.pending_site(l1, s1) && #[trigger] post.pending_site(l2, s2)
            && (l1 != l2 || s1 != s2) implies s1 + 4 <= s2 || s2 + 4 <= s1 by {
        assert(pre.pending_site(l1, s1));
        assert(pre.pending_site(l2, s2));
    }
    assert forall|i: int, l: int, s: int|
        0 <= i < post.branches.len() && #[trigger] post.pending_site(l, s)
            && !((#[trigger] post.branches[i]).label == l && post.branches[i].site == s)
        implies post.branches[i].site + 4 <= s || s + 4 <= post.branches[i].site by {
        assert(pre.pending_site(l, s));
    }
    assert forall|i: int| 0 <= i < post.branches.len() implies post.branch_ok(i) by {
        assert(pre.branch_ok(i));
        let b = pre.branches[i];
        match pre.labels[b.label] {
            LabelView::Pending(sites) => {},
            LabelView::Resolved(d) => {
                lemma_prefix_subrange(post.code, pre.code, b.site, b.site + 4);
            },
        }
    }
}

/// The invariant does not depend on the allocation pointer beyond its
/// bounds.
proof fn lemma_wf_same_core(pre: AsmView, post: AsmView)
    requires
        pre.wf(),
        post.code == pre.code,
        post.labels == pre.labels,
        post.branches == pre.branches,
        BSS_VIRTUAL_ADDRESS <= post.alloc <= MAX_VIRTUAL_ADDRESS + 1,
    ensures
        post.wf(),
{
    assert forall|l: int| 0 <= l < post.labels.len() implies post.label_entry_ok(l) by {
        assert(pre.label_entry_ok(l));
    }
    assert forall|l1: int, s1: int, l2: int, s2: int|
        #[trigger] post.pending_site(l1, s1) && #[trigger] post.pending_site(l2, s2)
            && (l1 != l2 || s1 != s2) implies s1 + 4 <= s2 || s2 + 4 <= s1 by {
        assert(pre.pending_site(l1, s1));
        assert(pre.pending_site(l2, s2));
    }
    assert forall|i: int, l: int, s: int|
        0 <= i < post.branches.len() && #[trigger] post.pending_site(l, s)
            && !((#[trigger] post.branches[i]).label == l && post.branches[i].site == s)
        implies post.branches[i].site + 4 <= s || s + 4 <= post.branches[i].site by {
        assert(pre.pending_site(l, s));
    }
    assert forall|i: int| 0 <= i < post.branches.len() implies post.branch_ok(i) by {
        assert(pre.branch_ok(i));
    }
}

/// Adding a fresh pending label with no recorded sites preserves the
/// invariant.
proof fn lemma_wf_push_label(pre: AsmView, post: AsmView)
    requires
        pre.wf(),
        post.code == pre.code,
        post.branches == pre.branches,
        post.alloc == pre.alloc,
        post.labels == pre.labels.push(LabelView::Pending(Seq::empty())),
    ensures
        post.wf(),
{
    let fresh = pre.labels.len() as int;
    assert forall|l: int| 0 <= l < post.labels.len() implies post.label_entry_ok(l) by {
        if l < fresh {
            assert(pre.label_entry_ok(l));
        }
    }
    assert forall|l: int, s: int| #[trigger] post.pending_site(l, s) implies l == fresh
        || pre.pending_site(l, s) by {
        if l == fresh {
        } else {
            assert(post.labels[l] == pre.labels[l]);
        }
    }
    assert forall|s: int| !(#[trigger] post.pending_site(fresh, s)) by {
        assert(!Seq::<int>::empty().contains(s));
    }
    assert forall|l1: int, s1: int, l2: int, s2: int|
        #[trigger] post.pending_site(l1, s1) && #[trigger] post.pending_site(l2, s2)
            && (l1 != l2 || s1 != s2) implies s1 + 4 <= s2 || s2 + 4 <= s1 by {
        assert(pre.pending_site(l1, s1));
        assert(pre.pending_site(l2, s2));
    }
    assert forall|i: int, l: int, s: int|
        0 <= i < post.branches.len() && #[trigger] post.pending_site(l, s)
            && !((#[trigger] post.branches[i]).label == l && post.branches[i].site == s)
        implies post.branches[i].site + 4 <= s || s + 4 <= post.branches[i].site by {
        assert(pre.pending_site(l, s));
    }
    assert forall|i: int| 0 <= i < post.branches.len() implies post.branch_ok(i) by {
        assert(pre.branch_ok(i));
        let b = pre.branches[i];
        assert(post.labels[b.label] == pre.labels[b.label]);
    }
}

/// Branching to a pending label preserves the invariant: the fresh
/// placeholder window sits past every existing window.
proof fn lemma_wf_branch_pending(pre: AsmView, post: AsmView, l: int, opcode: Seq<u8>)
    requires
        pre.wf(),
        0 <= l < pre.labels.len(),
        pre.labels[l] is Pending,
        post.code == pre.code + opcode + zero4(),
        post.labels == pre.labels.update(
            l,
            LabelView::Pending(pre.labels[l]->Pending_0.push(pre.code.len() + opcode.len() as int)),
        ),
        post.branches == pre.branches.push(
            BranchRef { site: pre.code.len() + opcode.len() as int, label: l },
        ),
        post.alloc == pre.alloc,
    ensures
        post.wf(),
{
    let n = pre.code.len() as int;
    let site = n + opcode.len();
    let sites = pre.labels[l]->Pending_0;
    let sites2 = sites.push(site);
    assert(post.code.subrange(0, n) =~= pre.code);
    assert(post.code.subrange(site, site + 4) =~= zero4());

    // Every site of the updated table is either an old site or the new one.
    assert forall|l2: int, s2: int| #[trigger] post.pending_site(l2, s2) implies
        pre.pending_site(l2, s2) || (l2 == l && s2 == site) by {
        if l2 == l {
            if s2 != site {
                let k = choose|k: int| 0 <= k < sites2.len() && sites2[k] == s2;
                assert(sites[k] == s2);
                assert(sites.contains(s2));
            }
        } else {
            assert(post.labels[l2] == pre.labels[l2]);
        }
    }
    assert forall|l2: int, s2: int| pre.pending_site(l2, s2) implies
        #[trigger] post.pending_site(l2, s2) by {
        if l2 == l {
            let k = choose|k: int| 0 <= k < sites.len() && sites[k] == s2;
            assert(sites2[k] == s2);
            assert(sites2.contains(s2));
        } else {
            assert(post.labels[l2] == pre.labels[l2]);
        }
    }
    // Old windows end before the new one starts.
    assert forall|l2: int, s2: int| pre.pending_site(l2, s2) implies s2 + 4 <= site by {
        assert(pre.label_entry_ok(l2));
        let ss = pre.labels[l2]->Pending_0;
        let k = choose|k: int| 0 <= k < ss.len() && ss[k] == s2;
        assert(pre.placeholder_ok(ss[k]));
    }

    assert(sites2.contains(site)) by {
        assert(sites2[sites2.len() - 1] == site);
    }
    assert(post.pending_site(l, site));

    assert forall|l2: int| 0 <= l2 < post.labels.len() implies post.label_entry_ok(l2) by {
        assert(pre.label_entry_ok(l2));
        match pre.labels[l2] {
            LabelView::Pending(ss) => {
                assert forall|k: int| 0 <= k < ss.len() implies post.placeholder_ok(
                    #[trigger] ss[k],
                ) by {
                    assert(pre.placeholder_ok(ss[k]));
                    lemma_prefix_subrange(post.code, pre.code, ss[k], ss[k] + 4);
                }
                if l2 == l {
                    assert forall|k: int| 0 <= k < sites2.len() implies post.placeholder_ok(
                        #[trigger] sites2[k],
                    ) by {
                        if k < sites.len() {
                            assert(sites2[k] == sites[k]);
                        } else {
                            assert(sites2[k] == site);
                        }
                    }
                }
            },
            LabelView::Resolved(d) => {},
        }
    }
    assert forall|l1: int, s1: int, l2: int, s2: int|
        #[trigger] post.pending_site(l1, s1) && #[trigger] post.pending_site(l2, s2)
            && (l1 != l2 || s1 != s2) implies s1 + 4 <= s2 || s2 + 4 <= s1 by {
        if pre.pending_site(l1, s1) && pre.pending_site(l2, s2) {
        } else if pre.pending_site(l1, s1) {
            assert(s2 == site);
        } else if pre.pending_site(l2, s2) {
            assert(s1 == site);
        }
    }
    assert forall|i: int, l2: int, s2: int|
        0 <= i < post.branches.len() && #[trigger] post.pending_site(l2, s2)
            && !((#[trigger] post.branches[i]).label == l2 && post.branches[i].site == s2)
        implies post.branches[i].site + 4 <= s2 || s2 + 4 <= post.branches[i].site by {
        let b = post.branches[i];
        if i < pre.branches.len() {
            assert(b == pre.branches[i]);
            assert(pre.branch_ok(i));
            if pre.pending_site(l2, s2) {
            } else {
                // s2 is the new site: the old branch window ends at or
                // before the old code end.
                assert(b.site + 4 <= n);
            }
        } else {
            assert(b.site == site && b.label == l);
            if pre.pending_site(l2, s2) {
                assert(s2 + 4 <= site);
            } else {
                assert(l2 == l && s2 == site);
            }
        }
    }
    assert forall|i: int| 0 <= i < post.branches.len() implies post.branch_ok(i) by {
        if i < pre.branches.len() {
            assert(pre.branch_ok(i));
            let b = pre.branches[i];
            assert(post.branches[i] == b);
            match pre.labels[b.label] {
                LabelView::Pending(ss) => {
                    if b.label == l {
                        let k = choose|k: int| 0 <= k < ss.len() && ss[k] == b.site;
                        assert(sites2[k] == b.site);
                        assert(sites2.contains(b.site));
                    }
                },
                LabelView::Resolved(d) => {
                    lemma_prefix_subrange(post.code, pre.code, b.site, b.site + 4);
                },
            }
        } else {
            assert(post.branches[i] == (BranchRef { site: site, label: l }));
        }
    }
}

/// Branching to a resolved label preserves the invariant: the encoded
/// displacement window decodes back to the label's offset.
proof fn lemma_wf_branch_resolved(pre: AsmView, post: AsmView, l: int, opcode: Seq<u8>)
    requires
        pre.wf(),
        0 <= l < pre.labels.len(),
        pre.labels[l] is Resolved,
        pre.code.len() + opcode.len() + 8 <= 0x7fff_ffff,
        post.code == pre.code + opcode + i32_le(
            pre.labels[l]->Resolved_0 - (pre.code.len() + opcode.len() + 4),
        ),
        post.labels == pre.labels,
        post.branches == pre.branches.push(
            BranchRef { site: pre.code.len() + opcode.len() as int, label: l },
        ),
        post.alloc == pre.alloc,
    ensures
        post.wf(),
{
    let n = pre.code.len() as int;
    let site = n + opcode.len();
    let d = pre.labels[l]->Resolved_0;
    let disp = d - (site + 4);
    assert(pre.label_entry_ok(l));
    assert(0 <= d <= n);
    lemma_decode_i32_le(disp);
    assert(post.code.subrange(0, n) =~= pre.code);
    assert(post.code.subrange(site, site + 4) =~= i32_le(disp));

    assert forall|l2: int, s2: int| #[trigger] post.pending_site(l2, s2) implies
        pre.pending_site(l2, s2) by {
        assert(post.labels[l2] == pre.labels[l2]);
    }
    assert forall|l2: int, s2: int| pre.pending_site(l2, s2) implies s2 + 4 <= n by {
        assert(pre.label_entry_ok(l2));
        let ss = pre.labels[l2]->Pending_0;
        let k = choose|k: int| 0 <= k < ss.len() && ss[k] == s2;
        assert(pre.placeholder_ok(ss[k]));
    }
    assert forall|l2: int| 0 <= l2 < post.labels.len() implies post.label_entry_ok(l2) by {
        assert(pre.label_entry_ok(l2));
        match pre.labels[l2] {
            LabelView::Pending(ss) => {
                assert forall|k: int| 0 <= k < ss.len() implies post.placeholder_ok(
                    #[trigger] ss[k],
                ) by {
                    assert(pre.placeholder_ok(ss[k]));
                    lemma_prefix_subrange(post.code, pre.code, ss[k], ss[k] + 4);
                }
            },
            LabelView::Resolved(dd) => {},
        }
    }
    assert forall|l1: int, s1: int, l2: int, s2: int|
        #[trigger] post.pending_site(l1, s1) && #[trigger] post.pending_site(l2, s2)
            && (l1 != l2 || s1 != s2) implies s1 + 4 <= s2 || s2 + 4 <= s1 by {
        assert(pre.pending_site(l1, s1));
        assert(pre.pending_site(l2, s2));
    }
    assert forall|i: int, l2: int, s2: int|
        0 <= i < post.branches.len() && #[trigger] post.pending_site(l2, s2)
            && !((#[trigger] post.branches[i]).label == l2 && post.branches[i].site == s2)
        implies post.branches[i].site + 4 <= s2 || s2 + 4 <= post.branches[i].site by {
        assert(pre.pending_site(l2, s2));
        if i < pre.branches.len() {
            assert(post.branches[i] == pre.branches[i]);
        } else {
            assert(post.branches[i].site == site);
            assert(s2 + 4 <= n);
        }
    }
    assert forall|i: int| 0 <= i < post.branches.len() implies post.branch_ok(i) by {
        if i < pre.branches.len() {
            assert(pre.branch_ok(i));
            let b = pre.branches[i];
            assert(post.branches[i] == b);
            match pre.labels[b.label] {
                LabelView::Pending(ss) => {},
                LabelView::Resolved(dd) => {
                    lemma_prefix_subrange(post.code, pre.code, b.site, b.site + 4);
                },
            }
        } else {
            assert(post.branches[i] == (BranchRef { site: site, label: l }));
            assert(decode_i32(post.code.subrange(site, site + 4)) == disp);
        }
    }
}

/// Resolving a pending label preserves the invariant: each of its windows
/// now decodes to the forward displacement that reaches the definition,
/// and nothing else moved.
proof fn lemma_wf_resolve(pre: AsmView, post: AsmView, l: int, sites: Seq<int>)
    requires
        pre.wf(),
        0 <= l < pre.labels.len(),
        pre.labels[l] == LabelView::Pending(sites),
        pre.code.len() <= 0x7fff_ffff,
        post.code.len() == pre.code.len(),
        post.labels == pre.labels.update(l, LabelView::Resolved(pre.code.len() as int)),
        post.branches == pre.branches,
        post.alloc == pre.alloc,
        forall|j: int|
            0 <= j < sites.len() ==> post.code.subrange(#[trigger] sites[j], sites[j] + 4)
                == u32_le(pre.code.len() - (sites[j] + 4)),
        forall|i: int|
            0 <= i < pre.code.len() && post.code[i] != pre.code[i] ==> exists|j: int|
                0 <= j < sites.len() && (#[trigger] sites[j]) <= i < sites[j] + 4,
    ensures
        post.wf(),
{
    let n = pre.code.len() as int;
    assert(pre.label_entry_ok(l));
    assert forall|s: int| sites.contains(s) implies pre.pending_site(l, s) by {}
    // Windows of every other pending label keep their bytes.
    assert forall|l2: int, s2: int|
        pre.pending_site(l2, s2) && l2 != l implies post.code.subrange(s2, s2 + 4)
            == pre.code.subrange(s2, s2 + 4) by {
        assert(pre.label_entry_ok(l2));
        let ss = pre.labels[l2]->Pending_0;
        let kk = choose|kk: int| 0 <= kk < ss.len() && ss[kk] == s2;
        assert(pre.placeholder_ok(ss[kk]));
        assert forall|i: int| s2 <= i < s2 + 4 implies post.code[i] == pre.code[i] by {
            if post.code[i] != pre.code[i] {
                let j = choose|j: int|
                    0 <= j < sites.len() && (#[trigger] sites[j]) <= i < sites[j] + 4;
                assert(sites.contains(sites[j]));
                assert(pre.pending_site(l, sites[j]));
                assert(sites[j] + 4 <= s2 || s2 + 4 <= sites[j]);
            }
        }
        assert(post.code.subrange(s2, s2 + 4) =~= pre.code.subrange(s2, s2 + 4));
    }
    // Encoded branch windows keep their bytes.
    assert forall|i: int|
        0 <= i < pre.branches.len() && !(pre.branches[i].label == l) implies post.code.subrange(
            pre.branches[i].site,
            pre.branches[i].site + 4,
        ) == pre.code.subrange(pre.branches[i].site, pre.branches[i].site + 4) by {
        let b = pre.branches[i];
        assert(pre.branch_ok(i));
        assert forall|ii: int| b.site <= ii < b.site + 4 implies post.code[ii] == pre.code[ii]
        by {
            if post.code[ii] != pre.code[ii] {
                let j = choose|j: int|
                    0 <= j < sites.len() && (#[trigger] sites[j]) <= ii < sites[j] + 4;
                assert(sites.contains(sites[j]));
                assert(pre.pending_site(l, sites[j]));
                assert(b.site + 4 <= sites[j] || sites[j] + 4 <= b.site);
            }
        }
        assert(post.code.subrange(b.site, b.site + 4) =~= pre.code.subrange(
            b.site,
            b.site + 4,
        ));
    }

    assert forall|l2: int| 0 <= l2 < post.labels.len() implies post.label_entry_ok(l2) by {
        assert(pre.label_entry_ok(l2));
        if l2 != l {
            match pre.labels[l2] {
                LabelView::Pending(ss) => {
                    assert forall|k: int| 0 <= k < ss.len() implies post.placeholder_ok(
                        #[trigger] ss[k],
                    ) by {
                        assert(pre.placeholder_ok(ss[k]));
                        assert(ss.contains(ss[k]));
                        assert(pre.pending_site(l2, ss[k]));
                    }
                },
                LabelView::Resolved(d) => {},
            }
        }
    }
    assert forall|l1: int, s1: int, l2: int, s2: int|
        #[trigger] post.pending_site(l1, s1) && #[trigger] post.pending_site(l2, s2)
            && (l1 != l2 || s1 != s2) implies s1 + 4 <= s2 || s2 + 4 <= s1 by {
        assert(pre.pending_site(l1, s1));
        assert(pre.pending_site(l2, s2));
    }
    assert forall|i: int, l2: int, s2: int|
        0 <= i < post.branches.len() && #[trigger] post.pending_site(l2, s2)
            && !((#[trigger] post.branches[i]).label == l2 && post.branches[i].site == s2)
        implies post.branches[i].site + 4 <= s2 || s2 + 4 <= post.branches[i].site by {
        assert(pre.pending_site(l2, s2));
    }
    assert forall|i: int| 0 <= i < post.branches.len() implies post.branch_ok(i) by {
        assert(pre.branch_ok(i));
        let b = pre.branches[i];
        if b.label == l {
            assert(sites.contains(b.site));
            let j = choose|j: int| 0 <= j < sites.len() && sites[j] == b.site;
            let disp = n - (b.site + 4);
            assert(pre.pending_site(l, b.site));
            assert(pre.placeholder_ok(b.site)) by {
                assert(pre.label_entry_ok(l));
            }
            assert(post.code.subrange(b.site, b.site + 4) == u32_le(disp));
            assert(0 <= disp < 0x8000_0000);
            lemma_decode_i32_le(disp);
            assert(i32_le(disp) == u32_le(disp));
        } else {
            match pre.labels[b.label] {
                LabelView::Pending(ss) => {
                    assert(post.labels[b.label] == pre.labels[b.label]);
                },
                LabelView::Resolved(d) => {
                    assert(post.labels[b.label] == pre.labels[b.label]);
                },
            }
        }
    }
}

/// The assembler.  `machine_code` is the append-only code buffer;
/// `label_states` the relocation table; `allocation_pointer` the bump
/// pointer carving regions out of the zero-fill segment; `branches` the
/// ghost record of every branch instruction emitted.
pub struct ElfAssembler {
    allocation_pointer: u64,
    label_states: Vec<LabelState>,
    machine_code: Vec<u8>,
    branches: Ghost<Seq<BranchRef>>,
}

impl View for ElfAssembler {
    type V = AsmView;

    closed spec fn view(&self) -> AsmView {
        AsmView {
            code: self.machine_code@,
            labels: self.label_states@.map_values(|l: LabelState| l@),
            alloc: self.allocation_pointer as int,
            branches: self.branches@,
        }
    }
}

impl ElfAssembler {
    /// A fresh assembler: no code, no labels, the whole zero-fill segment
    /// still unallocated.
    pub fn new() -> (r: Self)
        ensures
            r@.wf(),
            r@.code == Seq::<u8>::empty(),
            r@.labels == Seq::<LabelView>::empty(),
            r@.branches == Seq::<BranchRef>::empty(),
            r@.alloc == BSS_VIRTUAL_ADDRESS,
    {
        let r = Self {
            allocation_pointer: BSS_VIRTUAL_ADDRESS,
            label_states: Vec::new(),
            machine_code: Vec::new(),
            branches: Ghost(Seq::empty()),
        };
        proof {
            assert(r@.labels =~= Seq::<LabelView>::empty());
        }
        r
    }

    /// Carves `size` zero-initialized bytes out of the zero-fill segment
    /// and returns their virtual address.  Allocation is monotonic: regions
    /// are disjoint by construction and never freed.
    pub(crate) fn allocate_memory(&mut self, size: u64) -> (r: Address)
        requires
            old(self)@.wf(),
            old(self)@.alloc + size <= MAX_VIRTUAL_ADDRESS + 1,
        ensures
            final(self)@.wf(),
            r == old(self)@.alloc,
            final(self)@.alloc == old(self)@.alloc + size,
            final(self)@.code == old(self)@.code,
            final(self)@.labels == old(self)@.labels,
            final(self)@.branches == old(self)@.branches,
    {
        let ghost pre = self@;
        let address = self.allocation_pointer;
        self.allocation_pointer = self.allocation_pointer + size;
        proof {
            lemma_wf_same_core(pre, self@);
        }
        address
    }

    /// A new label in the pending state, owing no patches yet.
    pub(crate) fn allocate_label(&mut self) -> (r: Label)
        requires
            old(self)@.wf(),
        ensures
            final(self)@.wf(),
            r == old(self)@.labels.len(),
            final(self)@.labels == old(self)@.labels.push(LabelView::Pending(Seq::empty())),
            final(self)@.code == old(self)@.code,
            final(self)@.branches == old(self)@.branches,
            final(self)@.alloc == old(self)@.alloc,
    {
        let ghost pre = self@;
        let index = self.label_states.len();
        self.label_states.push(LabelState::Unpopulated(Vec::new()));
        proof {
            assert(self@.labels =~~= pre.labels.push(LabelView::Pending(Seq::empty())));
            lemma_wf_push_label(pre, self@);
        }
        index
    }

    /// Defines `label` at the current end of the code, transitioning it
    /// from pending to resolved, and back-patches every placeholder window
    /// recorded for it with the little-endian displacement
    /// `definition_offset - (window_offset + 4)`.  A label may be defined
    /// only while pending, so at most once.
    pub(crate) fn label(&mut self, label: Label)
        requires
            old(self)@.wf(),
            label < old(self)@.labels.len(),
            old(self)@.labels[label as int] is Pending,
            old(self)@.code.len() <= 0x7fff_ffff,
        ensures
            final(self)@.wf(),
            final(self)@.labels == old(self)@.labels.update(
                label as int,
                LabelView::Resolved(old(self)@.code.len() as int),
            ),
            final(self)@.code.len() == old(self)@.code.len(),
            final(self)@.branches == old(self)@.branches,
            final(self)@.alloc == old(self)@.alloc,
            forall|i: int|
                0 <= i < old(self)@.code.len() && final(self)@.code[i] != old(self)@.code[i]
                    ==> exists|s: int|
                    old(self)@.pending_site(label as int, s) && s <= i < s + 4,
            forall|s: int|
                #[trigger] old(self)@.pending_site(label as int, s)
                    ==> final(self)@.code.subrange(s, s + 4) == u32_le(
                    old(self)@.code.len() - (s + 4),
                ),
    {
        let ghost pre = self@;
        let ghost sites = pre.labels[label as int]->Pending_0;
        let destination = self.machine_code.len();
        let mut taken = LabelState::Populated(destination);
        core::mem::swap(&mut self.label_states[label], &mut taken);
        proof {
            assert(self@.labels =~~= pre.labels.update(
                label as int,
                LabelView::Resolved(destination as int),
            ));
        }
        if let LabelState::Unpopulated(offsets) = taken {
            proof {
                assert(offsets@.map_values(|s: usize| s as int) =~= sites);
            }
            let mut k: usize = 0;
            while k < offsets.len()
                invariant
                    pre.wf(),
                    0 <= (label as int) < pre.labels.len(),
                    pre.labels[label as int] == LabelView::Pending(sites),
                    offsets@.map_values(|s: usize| s as int) == sites,
                    destination == pre.code.len(),
                    destination <= 0x7fff_ffff,
                    k <= offsets.len(),
                    self@.labels == pre.labels.update(
                        label as int,
                        LabelView::Resolved(destination as int),
                    ),
                    self@.branches == pre.branches,
                    self@.alloc == pre.alloc,
                    self@.code.len() == pre.code.len(),
                    forall|j: int|
                        0 <= j < k ==> self@.code.subrange(#[trigger] sites[j], sites[j] + 4)
                            == u32_le(destination - (sites[j] + 4)),
                    forall|i: int|
                        0 <= i < pre.code.len() && self@.code[i] != pre.code[i]
                            ==> exists|j: int|
                            0 <= j < k && (#[trigger] sites[j]) <= i < sites[j] + 4,
                decreases offsets.len() - k,
            {
                let site = offsets[k];
                proof {
                    assert(sites[k as int] == site as int);
                    assert(sites.contains(site as int));
                    assert(pre.label_entry_ok(label as int));
                    assert(pre.labels[label as int]->Pending_0[k as int] == site as int);
                    assert(pre.placeholder_ok(site as int));
                }
                let difference = destination - (site + 4);
                let ghost before = self@;
                write_u32_le_at(&mut self.machine_code, site, difference as u32);
                k = k + 1;
                proof {
                    let kk = k as int;
                    assert forall|j: int| 0 <= j < kk implies self@.code.subrange(
                        #[trigger] sites[j],
                        sites[j] + 4,
                    ) == u32_le(destination - (sites[j] + 4)) by {
                        assert(sites.contains(sites[j]));
                        assert(pre.label_entry_ok(label as int));
                        assert(pre.labels[label as int]->Pending_0[j] == sites[j]);
                        assert(pre.placeholder_ok(sites[j]));
                        if j == kk - 1 {
                            assert(difference as int == destination - (sites[j] + 4));
                        } else if sites[j] == site as int {
                            assert(self@.code.subrange(sites[j], sites[j] + 4) == u32_le(
                                difference as int,
                            ));
                        } else {
                            assert(pre.pending_site(label as int, sites[j]));
                            assert(pre.pending_site(label as int, site as int));
                            assert(sites[j] + 4 <= site as int || site as int + 4 <= sites[j]);
                            assert(self@.code.subrange(sites[j], sites[j] + 4) =~= before
                                .code.subrange(sites[j], sites[j] + 4));
                        }
                    }
                    assert forall|i: int|
                        0 <= i < pre.code.len() && self@.code[i] != pre.code[i]
                        implies exists|j: int|
                        0 <= j < kk && (#[trigger] sites[j]) <= i < sites[j] + 4 by {
                        if before.code[i] != pre.code[i] {
                            let j = choose|j: int|
                                0 <= j < kk - 1 && (#[trigger] sites[j]) <= i < sites[j] + 4;
                            assert(0 <= j < kk && sites[j] <= i < sites[j] + 4);
                        } else {
                            assert(site as int <= i < site as int + 4);
                            assert(sites[kk - 1] <= i < sites[kk - 1] + 4);
                        }
                    }
                }
            }
            proof {
                assert forall|i: int|
                    0 <= i < pre.code.len() && self@.code[i] != pre.code[i]
                    implies exists|s: int|
                    pre.pending_site(label as int, s) && s <= i < s + 4 by {
                    let j = choose|j: int|
                        0 <= j < sites.len() && (#[trigger] sites[j]) <= i < sites[j] + 4;
                    assert(sites.contains(sites[j]));
                    assert(pre.pending_site(label as int, sites[j]));
                }
                assert forall|s: int| #[trigger] pre.pending_site(label as int, s)
                    implies self@.code.subrange(s, s + 4) == u32_le(
                    pre.code.len() - (s + 4),
                ) by {
                    assert(sites.contains(s));
                    let j = choose|j: int| 0 <= j < sites.len() && sites[j] == s;
                    assert(self@.code.subrange(sites[j], sites[j] + 4) == u32_le(
                        destination - (sites[j] + 4),
                    ));
                }
                lemma_wf_resolve(pre, self@, label as int, sites);
            }
        } else {
            proof {
                assert(false);
            }
        }
    }

    /// Emits one branch instruction with a 2-byte opcode, targeting
    /// `label`.  A resolved label gets its backward displacement encoded
    /// immediately; a pending label gets a 4-byte zero placeholder whose
    /// offset is recorded for patching when the label is defined.
    fn generate_branch(&mut self, label: Label, b0: u8, b1: u8)
        requires
            old(self)@.wf(),
            label < old(self)@.labels.len(),
            old(self)@.code.len() + 10 <= 0x7fff_ffff,
        ensures
            final(self)@.wf(),
            branch_result(old(self)@, final(self)@, label as int, seq![b0, b1]),
            final(self)@.code.len() == old(self)@.code.len() + 6,
    {
        let ghost pre = self@;
        self.machine_code.push(b0);
        self.machine_code.push(b1);
        let site = self.machine_code.len();

        let resolved: Option<usize> = match &self.label_states[label] {
            LabelState::Populated(destination) => Some(*destination),
            LabelState::Unpopulated(_) => None,
        };

        match resolved {
            Some(destination) => {
                proof {
                    assert(pre.labels[label as int] is Resolved);
                    assert(pre.label_entry_ok(label as int));
                }
                let origin = site + 4;
                let difference = origin - destination;
                let encoded: u64 = 0x1_0000_0000u64 - (difference as u64);
                push_le_bytes(&mut self.machine_code, encoded, 4);
                proof {
                    self.branches@ = pre.branches.push(
                        BranchRef { site: site as int, label: label as int },
                    );
                    let d = pre.labels[label as int]->Resolved_0;
                    let disp = d - (site + 4);
                    lemma_decode_i32_le(disp);
                    assert(encoded as int == disp + 0x1_0000_0000);
                    assert(le_bytes(encoded as int, 4) == i32_le(disp));
                    assert(self@.code =~= pre.code + seq![b0, b1] + i32_le(disp));
                    lemma_wf_branch_resolved(pre, self@, label as int, seq![b0, b1]);
                    assert(self@.labels =~~= pre.labels);
                }
            },
            None => {
                self.machine_code.push(0x00);
                self.machine_code.push(0x00);
                self.machine_code.push(0x00);
                self.machine_code.push(0x00);
                let slot = &mut self.label_states[label];
                match slot {
                    LabelState::Unpopulated(offsets) => {
                        offsets.push(site);
                    },
                    LabelState::Populated(_) => {
                        proof {
                            assert(false);
                        }
                    },
                }
                proof {
                    self.branches@ = pre.branches.push(
                        BranchRef { site: site as int, label: label as int },
                    );
                    assert(self@.code =~= pre.code + seq![b0, b1] + zero4());
                    let sites = pre.labels[label as int]->Pending_0;
                    assert(self@.labels =~~= pre.labels.update(
                        label as int,
                        LabelView::Pending(sites.push(site as int)),
                    ));
                    lemma_wf_branch_pending(pre, self@, label as int, seq![b0, b1]);
                }
            },
        }
    }

    /// `je`: branch if equal.
    pub(crate) fn je(&mut self, label: Label)
        requires
            old(self)@.wf(),
            label < old(self)@.labels.len(),
            old(self)@.code.len() + 10 <= 0x7fff_ffff,
        ensures
            final(self)@.wf(),
            branch_result(old(self)@, final(self)@, label as int, seq![0x0fu8, 0x84u8]),
            final(self)@.code.len() == old(self)@.code.len() + 6,
    {
        self.generate_branch(label, 0x0f, 0x84);
    }

    /// `jg`: branch if greater (signed).
    pub(crate) fn jg(&mut self, label: Label)
        requires
            old(self)@.wf(),
            label < old(self)@.labels.len(),
            old(self)@.code.len() + 10 <= 0x7fff_ffff,
        ensures
            final(self)@.wf(),
            branch_result(old(self)@, final(self)@, label as int, seq![0x0fu8, 0x8fu8]),
            final(self)@.code.len() == old(self)@.code.len() + 6,
    {
        self.generate_branch(label, 0x0f, 0x8f);
    }

    /// `jne`: branch if not equal.
    pub(crate) fn jne(&mut self, label: Label)
        requires
            old(self)@.wf(),
            label < old(self)@.labels.len(),
            old(self)@.code.len() + 10 <= 0x7fff_ffff,
        ensures
            final(self)@.wf(),
            branch_result(old(self)@, final(self)@, label as int, seq![0x0fu8, 0x85u8]),
            final(self)@.code.len() == old(self)@.code.len() + 6,
    {
        self.generate_branch(label, 0x0f, 0x85);
    }

    /// `jns`: branch if the sign flag is clear.
    pub(crate) fn jns(&mut self, label: Label)
        requires
            old(self)@.wf(),
            label < old(self)@.labels.len(),
            old(self)@.code.len() + 10 <= 0x7fff_ffff,
        ensures
            final(self)@.wf(),
            branch_result(old(self)@, final(self)@, label as int, seq![0x0fu8, 0x89u8]),
            final(self)@.code.len() == old(self)@.code.len() + 6,
    {
        self.generate_branch(label, 0x0f, 0x89);
    }

    /// Appends a fixed 2-byte encoding.
    fn emit2(&mut self, a: u8, b: u8)
        requires
            old(self)@.wf(),
        ensures
            final(self)@.wf(),
            appended(old(self)@, final(self)@, seq![a, b]),
    {
        let ghost pre = self@;
        self.machine_code.push(a);
        self.machine_code.push(b);
        proof {
            assert(self@.code =~= pre.code + seq![a, b]);
            lemma_wf_append(pre, self@, seq![a, b]);
        }
    }

    /// Appends a fixed 3-byte encoding.
    fn emit3(&mut self, a: u8, b: u8, c: u8)
        requires
            old(self)@.wf(),
        ensures
            final(self)@.wf(),
            appended(old(self)@, final(self)@, seq![a, b, c]),
    {
        let ghost pre = self@;
        self.machine_code.push(a);
        self.machine_code.push(b);
        self.machine_code.push(c);
        proof {
            assert(self@.code =~= pre.code + seq![a, b, c]);
            lemma_wf_append(pre, self@, seq![a, b, c]);
        }
    }

    /// Appends a fixed 4-byte encoding.
    fn emit4(&mut self, a: u8, b: u8, c: u8, d: u8)
        requires
            old(self)@.wf(),
        ensures
            final(self)@.wf(),
            appended(old(self)@, final(self)@, seq![a, b, c, d]),
    {
        let ghost pre = self@;
        self.machine_code.push(a);
        self.machine_code.push(b);
        self.machine_code.push(c);
        self.machine_code.push(d);
        proof {
            assert(self@.code =~= pre.code + seq![a, b, c, d]);
            lemma_wf_append(pre, self@, seq![a, b, c, d]);
        }
    }

    /// Appends a 4-byte indexed-memory encoding plus an 8-bit immediate.
    fn emit4_u8(&mut self, a: u8, b: u8, c: u8, d: u8, operand: u8)
        requires
            old(self)@.wf(),
        ensures
            final(self)@.wf(),
            appended(old(self)@, final(self)@, seq![a, b, c, d, operand]),
    {
        let ghost pre = self@;
        self.machine_code.push(a);
        self.machine_code.push(b);
        self.machine_code.push(c);
        self.machine_code.push(d);
        self.machine_code.push(operand);
        proof {
            assert(self@.code =~= pre.code + seq![a, b, c, d, operand]);
            lemma_wf_append(pre, self@, seq![a, b, c, d, operand]);
        }
    }

    /// Appends a 3-byte opcode plus an 8-bit immediate.
    fn emit3_u8(&mut self, a: u8, b: u8, c: u8, operand: u8)
        requires
            old(self)@.wf(),
        ensures
            final(self)@.wf(),
            appended(old(self)@, final(self)@, seq![a, b, c, operand]),
    {
        self.emit4(a, b, c, operand);
    }

    /// Appends a 1-byte opcode plus a 32-bit little-endian immediate.
    fn emit1_u32(&mut self, a: u8, operand: u32)
        requires
            old(self)@.wf(),
        ensures
            final(self)@.wf(),
            appended(old(self)@, final(self)@, seq![a] + u32_le(operand as int)),
    {
        let ghost pre = self@;
        self.machine_code.push(a);
        push_le_bytes(&mut self.machine_code, operand as u64, 4);
        proof {
            assert(self@.code =~= pre.code + (seq![a] + u32_le(operand as int)));
            lemma_wf_append(pre, self@, seq![a] + u32_le(operand as int));
        }
    }

    /// Appends a 2-byte opcode plus a 32-bit little-endian immediate.
    fn emit2_u32(&mut self, a: u8, b: u8, operand: u32)
        requires
            old(self)@.wf(),
        ensures
            final(self)@.wf(),
            appended(old(self)@, final(self)@, seq![a, b] + u32_le(operand as int)),
    {
        let ghost pre = self@;
        self.machine_code.push(a);
        self.machine_code.push(b);
        push_le_bytes(&mut self.machine_code, operand as u64, 4);
        proof {
            assert(self@.code =~= pre.code + (seq![a, b] + u32_le(operand as int)));
            lemma_wf_append(pre, self@, seq![a, b] + u32_le(operand as int));
        }
    }

    /// Appends a 3-byte opcode plus a 32-bit little-endian immediate.
    fn emit3_u32(&mut self, a: u8, b: u8, c: u8, operand: u32)
        requires
            old(self)@.wf(),
        ensures
            final(self)@.wf(),
            appended(old(self)@, final(self)@, seq![a, b, c] + u32_le(operand as int)),
    {
        let ghost pre = self@;
        self.machine_code.push(a);
        self.machine_code.push(b);
        self.machine_code.push(c);
        push_le_bytes(&mut self.machine_code, operand as u64, 4);
        proof {
            assert(self@.code =~= pre.code + (seq![a, b, c] + u32_le(operand as int)));
            lemma_wf_append(pre, self@, seq![a, b, c] + u32_le(operand as int));
        }
    }

    /// Appends a 2-byte opcode plus a 64-bit little-endian immediate.
    fn emit2_u64(&mut self, a: u8, b: u8, operand: u64)
        requires
            old(self)@.wf(),
        ensures
            final(self)@.wf(),
            appended(old(self)@, final(self)@, seq![a, b] + crate::bytes::u64_le(operand as int)),
    {
        let ghost pre = self@;
        self.machine_code.push(a);
        self.machine_code.push(b);
        push_le_bytes(&mut self.machine_code, operand, 8);
        proof {
            assert(self@.code =~= pre.code + (seq![a, b] + crate::bytes::u64_le(operand as int)));
            lemma_wf_append(pre, self@, seq![a, b] + crate::bytes::u64_le(operand as int));
        }
    }
}

impl ElfAssembler {
    /// `add r15, rax`.
    pub(crate) fn add_r15_rax(&mut self)
        requires
            old(self)@.wf(),
        ensures
            final(self)@.wf(),
            appended(old(self)@, final(self)@, seq![0x49u8, 0x01u8, 0xc7u8]),
    {
        self.emit3(0x49, 0x01, 0xc7);
    }

    /// `add r8, r9`.
    pub(crate) fn add_r8_r9(&mut self)
        requires
            old(self)@.wf(),
        ensures
            final(self)@.wf(),
            appended(old(self)@, final(self)@, seq![0x4du8, 0x01u8, 0xc8u8]),
    {
        self.emit3(0x4d, 0x01, 0xc8);
    }

    /// `add rsi, r15`.
    pub(crate) fn add_rsi_r15(&mut self)
        requires
            old(self)@.wf(),
        ensures
            final(self)@.wf(),
            appended(old(self)@, final(self)@, seq![0x4cu8, 0x01u8, 0xfeu8]),
    {
        self.emit3(0x4c, 0x01, 0xfe);
    }

    /// `cmovae r8, r15`: copy if above or equal (unsigned).
    pub(crate) fn cmovae_r8_r15(&mut self)
        requires
            old(self)@.wf(),
        ensures
            final(self)@.wf(),
            appended(old(self)@, final(self)@, seq![0x4du8, 0x0fu8, 0x43u8, 0xc7u8]),
    {
        self.emit4(0x4d, 0x0f, 0x43, 0xc7);
    }

    /// `cmp r10, r12`.
    pub(crate) fn cmp_r10_r12(&mut self)
        requires
            old(self)@.wf(),
        ensures
            final(self)@.wf(),
            appended(old(self)@, final(self)@, seq![0x4du8, 0x39u8, 0xe2u8]),
    {
        self.emit3(0x4d, 0x39, 0xe2);
    }

    /// `cmp r15, r13`.
    pub(crate) fn cmp_r15_r13(&mut self)
        requires
            old(self)@.wf(),
        ensures
            final(self)@.wf(),
            appended(old(self)@, final(self)@, seq![0x4du8, 0x39u8, 0xefu8]),
    {
        self.emit3(0x4d, 0x39, 0xef);
    }

    /// `dec byte [rbx + r8]`: wrapping 8-bit decrement of the current cell.
    pub(crate) fn dec_byte_ptr_rbx_plus_r8(&mut self)
        requires
            old(self)@.wf(),
        ensures
            final(self)@.wf(),
            appended(old(self)@, final(self)@, seq![0x42u8, 0xfeu8, 0x0cu8, 0x03u8]),
    {
        self.emit4(0x42, 0xfe, 0x0c, 0x03);
    }

    /// `inc byte [rbx + r8]`: wrapping 8-bit increment of the current cell.
    pub(crate) fn inc_byte_ptr_rbx_plus_r8(&mut self)
        requires
            old(self)@.wf(),
        ensures
            final(self)@.wf(),
            appended(old(self)@, final(self)@, seq![0x42u8, 0xfeu8, 0x04u8, 0x03u8]),
    {
        self.emit4(0x42, 0xfe, 0x04, 0x03);
    }

    /// `inc r10`.
    pub(crate) fn inc_r10(&mut self)
        requires
            old(self)@.wf(),
        ensures
            final(self)@.wf(),
            appended(old(self)@, final(self)@, seq![0x49u8, 0xffu8, 0xc2u8]),
    {
        self.emit3(0x49, 0xff, 0xc2);
    }

    /// `inc r13`.
    pub(crate) fn inc_r13(&mut self)
        requires
            old(self)@.wf(),
        ensures
            final(self)@.wf(),
            appended(old(self)@, final(self)@, seq![0x49u8, 0xffu8, 0xc5u8]),
    {
        self.emit3(0x49, 0xff, 0xc5);
    }

    /// `mov byte [rbx + r8], r15b`.
    pub(crate) fn mov_byte_ptr_rbx_plus_r8_r15b(&mut self)
        requires
            old(self)@.wf(),
        ensures
            final(self)@.wf(),
            appended(old(self)@, final(self)@, seq![0x46u8, 0x88u8, 0x3cu8, 0x03u8]),
    {
        self.emit4(0x46, 0x88, 0x3c, 0x03);
    }

    /// `mov byte [rsp + r13], r15b`.
    pub(crate) fn mov_byte_ptr_rsp_plus_r13_r15b(&mut self)
        requires
            old(self)@.wf(),
        ensures
            final(self)@.wf(),
            appended(old(self)@, final(self)@, seq![0x46u8, 0x88u8, 0x3cu8, 0x2cu8]),
    {
        self.emit4(0x46, 0x88, 0x3c, 0x2c);
    }

    /// `mov r12, rax`.
    pub(crate) fn mov_r12_rax(&mut self)
        requires
            old(self)@.wf(),
        ensures
            final(self)@.wf(),
            appended(old(self)@, final(self)@, seq![0x49u8, 0x89u8, 0xc4u8]),
    {
        self.emit3(0x49, 0x89, 0xc4);
    }

    /// `mov r15b, byte [r14 + r10]`.
    pub(crate) fn mov_r15b_byte_ptr_r14_plus_r10(&mut self)
        requires
            old(self)@.wf(),
        ensures
            final(self)@.wf(),
            appended(old(self)@, final(self)@, seq![0x47u8, 0x8au8, 0x3cu8, 0x16u8]),
    {
        self.emit4(0x47, 0x8a, 0x3c, 0x16);
    }

    /// `mov r15b, byte [rbx + r8]`.
    pub(crate) fn mov_r15b_byte_ptr_rbx_plus_r8(&mut self)
        requires
            old(self)@.wf(),
        ensures
            final(self)@.wf(),
            appended(old(self)@, final(self)@, seq![0x46u8, 0x8au8, 0x3cu8, 0x03u8]),
    {
        self.emit4(0x46, 0x8a, 0x3c, 0x03);
    }

    /// `mov r15, r8`.
    pub(crate) fn mov_r15_r8(&mut self)
        requires
            old(self)@.wf(),
        ensures
            final(self)@.wf(),
            appended(old(self)@, final(self)@, seq![0x4du8, 0x89u8, 0xc7u8]),
    {
        self.emit3(0x4d, 0x89, 0xc7);
    }

    /// `mov rdx, r13`.
    pub(crate) fn mov_rdx_r13(&mut self)
        requires
            old(self)@.wf(),
        ensures
            final(self)@.wf(),
            appended(old(self)@, final(self)@, seq![0x4cu8, 0x89u8, 0xeau8]),
    {
        self.emit3(0x4c, 0x89, 0xea);
    }

    /// `mov rsi, r14`.
    pub(crate) fn mov_rsi_r14(&mut self)
        requires
            old(self)@.wf(),
        ensures
            final(self)@.wf(),
            appended(old(self)@, final(self)@, seq![0x4cu8, 0x89u8, 0xf6u8]),
    {
        self.emit3(0x4c, 0x89, 0xf6);
    }

    /// `mov rsi, rsp`.
    pub(crate) fn mov_rsi_rsp(&mut self)
        requires
            old(self)@.wf(),
        ensures
            final(self)@.wf(),
            appended(old(self)@, final(self)@, seq![0x48u8, 0x89u8, 0xe6u8]),
    {
        self.emit3(0x48, 0x89, 0xe6);
    }

    /// `sub r15, r9`.
    pub(crate) fn sub_r15_r9(&mut self)
        requires
            old(self)@.wf(),
        ensures
            final(self)@.wf(),
            appended(old(self)@, final(self)@, seq![0x4du8, 0x29u8, 0xcfu8]),
    {
        self.emit3(0x4d, 0x29, 0xcf);
    }

    /// `sub rdx, r15`.
    pub(crate) fn sub_rdx_r15(&mut self)
        requires
            old(self)@.wf(),
        ensures
            final(self)@.wf(),
            appended(old(self)@, final(self)@, seq![0x4cu8, 0x29u8, 0xfau8]),
    {
        self.emit3(0x4c, 0x29, 0xfa);
    }

    /// `syscall`.
    pub(crate) fn syscall(&mut self)
        requires
            old(self)@.wf(),
        ensures
            final(self)@.wf(),
            appended(old(self)@, final(self)@, seq![0x0fu8, 0x05u8]),
    {
        self.emit2(0x0f, 0x05);
    }

    /// `xor r10, r10`: zero r10.
    pub(crate) fn xor_r10_r10(&mut self)
        requires
            old(self)@.wf(),
        ensures
            final(self)@.wf(),
            appended(old(self)@, final(self)@, seq![0x4du8, 0x31u8, 0xd2u8]),
    {
        self.emit3(0x4d, 0x31, 0xd2);
    }

    /// `xor r12, r12`: zero r12.
    pub(crate) fn xor_r12_r12(&mut self)
        requires
            old(self)@.wf(),
        ensures
            final(self)@.wf(),
            appended(old(self)@, final(self)@, seq![0x4du8, 0x31u8, 0xe4u8]),
    {
        self.emit3(0x4d, 0x31, 0xe4);
    }

    /// `xor r13, r13`: zero r13.
    pub(crate) fn xor_r13_r13(&mut self)
        requires
            old(self)@.wf(),
        ensures
            final(self)@.wf(),
            appended(old(self)@, final(self)@, seq![0x4du8, 0x31u8, 0xedu8]),
    {
        self.emit3(0x4d, 0x31, 0xed);
    }

    /// `xor r15, r15`: zero r15.
    pub(crate) fn xor_r15_r15(&mut self)
        requires
            old(self)@.wf(),
        ensures
            final(self)@.wf(),
            appended(old(self)@, final(self)@, seq![0x4du8, 0x31u8, 0xffu8]),
    {
        self.emit3(0x4d, 0x31, 0xff);
    }

    /// `xor r8, r8`: zero r8.
    pub(crate) fn xor_r8_r8(&mut self)
        requires
            old(self)@.wf(),
        ensures
            final(self)@.wf(),
            appended(old(self)@, final(self)@, seq![0x4du8, 0x31u8, 0xc0u8]),
    {
        self.emit3(0x4d, 0x31, 0xc0);
    }

    /// `xor rax, rax`: zero rax.
    pub(crate) fn xor_rax_rax(&mut self)
        requires
            old(self)@.wf(),
        ensures
            final(self)@.wf(),
            appended(old(self)@, final(self)@, seq![0x48u8, 0x31u8, 0xc0u8]),
    {
        self.emit3(0x48, 0x31, 0xc0);
    }

    /// `xor rdi, rdi`: zero rdi.
    pub(crate) fn xor_rdi_rdi(&mut self)
        requires
            old(self)@.wf(),
        ensures
            final(self)@.wf(),
            appended(old(self)@, final(self)@, seq![0x48u8, 0x31u8, 0xffu8]),
    {
        self.emit3(0x48, 0x31, 0xff);
    }

    /// `add byte [rbx + r8], imm8`: wrapping 8-bit add to the current cell.
    pub(crate) fn add_byte_ptr_rbx_plus_r8_u8(&mut self, operand: u8)
        requires
            old(self)@.wf(),
        ensures
            final(self)@.wf(),
            appended(old(self)@, final(self)@, seq![0x42u8, 0x80u8, 0x04u8, 0x03u8, operand]),
    {
        self.emit4_u8(0x42, 0x80, 0x04, 0x03, operand);
    }

    /// `cmp byte [rbx + r8], imm8`.
    pub(crate) fn cmp_byte_ptr_rbx_plus_r8_u8(&mut self, operand: u8)
        requires
            old(self)@.wf(),
        ensures
            final(self)@.wf(),
            appended(old(self)@, final(self)@, seq![0x42u8, 0x80u8, 0x3cu8, 0x03u8, operand]),
    {
        self.emit4_u8(0x42, 0x80, 0x3c, 0x03, operand);
    }

    /// `cmp r15b, imm8`.
    pub(crate) fn cmp_r15b_u8(&mut self, operand: u8)
        requires
            old(self)@.wf(),
        ensures
            final(self)@.wf(),
            appended(old(self)@, final(self)@, seq![0x41u8, 0x80u8, 0xffu8, operand]),
    {
        self.emit3_u8(0x41, 0x80, 0xff, operand);
    }

    /// `cmp r13, imm32`.
    pub(crate) fn cmp_r13_u32(&mut self, operand: u32)
        requires
            old(self)@.wf(),
        ensures
            final(self)@.wf(),
            appended(old(self)@, final(self)@, seq![0x49u8, 0x81u8, 0xfdu8] + u32_le(operand as int)),
    {
        self.emit3_u32(0x49, 0x81, 0xfd, operand);
    }

    /// `cmp rax, imm32` (sign-extended).
    pub(crate) fn cmp_rax_u32(&mut self, operand: u32)
        requires
            old(self)@.wf(),
        ensures
            final(self)@.wf(),
            appended(old(self)@, final(self)@, seq![0x48u8, 0x3du8] + u32_le(operand as int)),
    {
        self.emit2_u32(0x48, 0x3d, operand);
    }

    /// `mov eax, imm32`.
    pub(crate) fn mov_rax_u32(&mut self, operand: u32)
        requires
            old(self)@.wf(),
        ensures
            final(self)@.wf(),
            appended(old(self)@, final(self)@, seq![0xb8u8] + u32_le(operand as int)),
    {
        self.emit1_u32(0xb8, operand);
    }

    /// `mov edi, imm32`.
    pub(crate) fn mov_rdi_u32(&mut self, operand: u32)
        requires
            old(self)@.wf(),
        ensures
            final(self)@.wf(),
            appended(old(self)@, final(self)@, seq![0xbfu8] + u32_le(operand as int)),
    {
        self.emit1_u32(0xbf, operand);
    }

    /// `mov edx, imm32`.
    pub(crate) fn mov_rdx_u32(&mut self, operand: u32)
        requires
            old(self)@.wf(),
        ensures
            final(self)@.wf(),
            appended(old(self)@, final(self)@, seq![0xbau8] + u32_le(operand as int)),
    {
        self.emit1_u32(0xba, operand);
    }

    /// `mov r9, imm64`.
    pub(crate) fn mov_r9_u64(&mut self, operand: u64)
        requires
            old(self)@.wf(),
        ensures
            final(self)@.wf(),
            appended(
                old(self)@,
                final(self)@,
                seq![0x49u8, 0xb9u8] + crate::bytes::u64_le(operand as int),
            ),
    {
        self.emit2_u64(0x49, 0xb9, operand);
    }

    /// `mov rbx, imm64`: load a memory-region address.
    pub(crate) fn mov_rbx_addr(&mut self, address: Address)
        requires
            old(self)@.wf(),
        ensures
            final(self)@.wf(),
            appended(
                old(self)@,
                final(self)@,
                seq![0x48u8, 0xbbu8] + crate::bytes::u64_le(address as int),
            ),
    {
        self.emit2_u64(0x48, 0xbb, address);
    }

    /// `mov r14, imm64`: load a memory-region address.
    pub(crate) fn mov_r14_addr(&mut self, address: Address)
        requires
            old(self)@.wf(),
        ensures
            final(self)@.wf(),
            appended(
                old(self)@,
                final(self)@,
                seq![0x49u8, 0xbeu8] + crate::bytes::u64_le(address as int),
            ),
    {
        self.emit2_u64(0x49, 0xbe, address);
    }

    /// `mov rsp, imm64`: load a memory-region address.
    pub(crate) fn mov_rsp_addr(&mut self, address: Address)
        requires
            old(self)@.wf(),
        ensures
            final(self)@.wf(),
            appended(
                old(self)@,
                final(self)@,
                seq![0x48u8, 0xbcu8] + crate::bytes::u64_le(address as int),
            ),
    {
        self.emit2_u64(0x48, 0xbc, address);
    }

    /// `add r8, imm8` (sign-extended): shift the tape position by a
    /// small delta, updating the flags for the wraparound correction.
    pub(crate) fn add_r8_i8(&mut self, operand: i8)
        requires
            old(self)@.wf(),
        ensures
            final(self)@.wf(),
            appended(
                old(self)@,
                final(self)@,
                seq![0x49u8, 0x83u8, 0xc0u8] + seq![
                    (if operand < 0 {
                        operand + 256
                    } else {
                        operand as int
                    }) as u8,
                ],
            ),
    {
        let byte: u8 = if operand >= 0 {
            operand as u8
        } else {
            ((operand as i16) + 256) as u8
        };
        self.emit3_u8(0x49, 0x83, 0xc0, byte);
        proof {
            assert(byte == (if operand < 0 {
                operand + 256
            } else {
                operand as int
            }) as u8);
            assert(seq![0x49u8, 0x83u8, 0xc0u8] + seq![byte] =~= seq![
                0x49u8,
                0x83u8,
                0xc0u8,
                byte,
            ]);
        }
    }

    /// `add r8, imm32` (sign-extended): shift the tape position by a large
    /// delta, updating the flags for the wraparound correction.
    pub(crate) fn add_r8_i32(&mut self, operand: i32)
        requires
            old(self)@.wf(),
        ensures
            final(self)@.wf(),
            appended(
                old(self)@,
                final(self)@,
                seq![0x49u8, 0x81u8, 0xc0u8] + i32_le(operand as int),
            ),
    {
        let encoded: u64 = if operand >= 0 {
            operand as u64
        } else {
            (0x1_0000_0000i64 + (operand as i64)) as u64
        };
        let ghost pre = self@;
        self.machine_code.push(0x49);
        self.machine_code.push(0x81);
        self.machine_code.push(0xc0);
        push_le_bytes(&mut self.machine_code, encoded, 4);
        proof {
            assert(le_bytes(encoded as int, 4) == i32_le(operand as int));
            assert(self@.code =~= pre.code + (seq![0x49u8, 0x81u8, 0xc0u8] + i32_le(
                operand as int,
            )));
            lemma_wf_append(pre, self@, seq![0x49u8, 0x81u8, 0xc0u8] + i32_le(operand as int));
        }
    }
}

impl ElfAssembler {
    /// Finalizes assembly: computes the final code and zero-fill sizes and
    /// stitches the ELF headers, the string table and the machine code
    /// into the complete image.  Every label must have been resolved and
    /// the code must fit below the zero-fill segment's base.
    ///
    /// Beyond producing exactly [`elf_image`], the result carries
    /// label-resolution soundness: every branch's displacement window in
    /// the image decodes to the offset of its label's definition.
    pub(crate) fn assemble(self) -> (r: Vec<u8>)
        requires
            self@.wf(),
            self@.all_resolved(),
            self@.code.len() <= MAX_TEXT_SIZE,
        ensures
            r@ == elf_image(self@.code, self@.alloc - BSS_VIRTUAL_ADDRESS),
            r@.len() == CODE_FILE_OFFSET + self@.code.len(),
            forall|i: int|
                0 <= i < self@.branches.len() ==> decode_i32(
                    r@.subrange(
                        CODE_FILE_OFFSET + (#[trigger] self@.branches[i]).site,
                        CODE_FILE_OFFSET + self@.branches[i].site + 4,
                    ),
                ) + self@.branches[i].site + 4 == label_offset(self@, self@.branches[i].label),
    {
        let ghost v = self@;
        let text_size = self.machine_code.len() as u64;
        let bss_size = self.allocation_pointer - BSS_VIRTUAL_ADDRESS;
        let mut output: Vec<u8> = Vec::new();
        push_elf_prefix(&mut output, text_size, bss_size);
        let mut code = self.machine_code;
        output.append(&mut code);
        proof {
            lemma_elf_prefix_len(text_size as int, bss_size as int);
            assert(output@ =~= elf_image(v.code, v.alloc - BSS_VIRTUAL_ADDRESS));
            assert forall|i: int| 0 <= i < v.branches.len() implies decode_i32(
                output@.subrange(
                    CODE_FILE_OFFSET + (#[trigger] v.branches[i]).site,
                    CODE_FILE_OFFSET + v.branches[i].site + 4,
                ),
            ) + v.branches[i].site + 4 == label_offset(v, v.branches[i].label) by {
                assert(v.branch_ok(i));
                let b = v.branches[i];
                assert(v.labels[b.label] is Resolved);
                assert(output@.subrange(
                    CODE_FILE_OFFSET + b.site,
                    CODE_FILE_OFFSET + b.site + 4,
                ) =~= v.code.subrange(b.site, b.site + 4));
            }
        }
        output
    }
}

/// Label-resolution soundness: in a fully assembled program, decoding any
/// branch instruction's 4-byte displacement and adding it to the end of
/// its placeholder window yields exactly the code offset at which the
/// branch's target label was defined.
pub proof fn lemma_label_resolution_soundness(v: AsmView, i: int)
    requires
        v.wf(),
        v.all_resolved(),
        0 <= i < v.branches.len(),
    ensures
        decode_i32(v.code.subrange(v.branches[i].site, v.branches[i].site + 4))
            + v.branches[i].site + 4 == label_offset(v, v.branches[i].label),
{
    assert(v.branch_ok(i));
    assert(v.labels[v.branches[i].label] is Resolved);
}


impl crate::assembler::Assembler for ElfAssembler {
    fn allocate_memory(&mut self, size: u64) -> (r: Address) {
        ElfAssembler::allocate_memory(self, size)
    }

    fn allocate_label(&mut self) -> (r: Label) {
        ElfAssembler::allocate_label(self)
    }

    fn label(&mut self, label: Label) {
        ElfAssembler::label(self, label)
    }

    fn je(&mut self, label: Label) {
        ElfAssembler::je(self, label)
    }

    fn jg(&mut self, label: Label) {
        ElfAssembler::jg(self, label)
    }

    fn jne(&mut self, label: Label) {
        ElfAssembler::jne(self, label)
    }

    fn jns(&mut self, label: Label) {
        ElfAssembler::jns(self, label)
    }

    fn add_r15_rax(&mut self) {
        ElfAssembler::add_r15_rax(self)
    }

    fn add_r8_r9(&mut self) {
        ElfAssembler::add_r8_r9(self)
    }

    fn add_rsi_r15(&mut self) {
        ElfAssembler::add_rsi_r15(self)
    }

    fn cmovae_r8_r15(&mut self) {
        ElfAssembler::cmovae_r8_r15(self)
    }

    fn cmp_r10_r12(&mut self) {
        ElfAssembler::cmp_r10_r12(self)
    }

    fn cmp_r15_r13(&mut self) {
        ElfAssembler::cmp_r15_r13(self)
    }

    fn dec_byte_ptr_rbx_plus_r8(&mut self) {
        ElfAssembler::dec_byte_ptr_rbx_plus_r8(self)
    }

    fn inc_byte_ptr_rbx_plus_r8(&mut self) {
        ElfAssembler::inc_byte_ptr_rbx_plus_r8(self)
    }

    fn inc_r10(&mut self) {
        ElfAssembler::inc_r10(self)
    }

    fn inc_r13(&mut self) {
        ElfAssembler::inc_r13(self)
    }

    fn mov_byte_ptr_rbx_plus_r8_r15b(&mut self) {
        ElfAssembler::mov_byte_ptr_rbx_plus_r8_r15b(self)
    }

    fn mov_byte_ptr_rsp_plus_r13_r15b(&mut self) {
        ElfAssembler::mov_byte_ptr_rsp_plus_r13_r15b(self)
    }

    fn mov_r12_rax(&mut self) {
        ElfAssembler::mov_r12_rax(self)
    }

    fn mov_r15b_byte_ptr_r14_plus_r10(&mut self) {
        ElfAssembler::mov_r15b_byte_ptr_r14_plus_r10(self)
    }

    fn mov_r15b_byte_ptr_rbx_plus_r8(&mut self) {
        ElfAssembler::mov_r15b_byte_ptr_rbx_plus_r8(self)
    }

    fn mov_r15_r8(&mut self) {
        ElfAssembler::mov_r15_r8(self)
    }

    fn mov_rdx_r13(&mut self) {
        ElfAssembler::mov_rdx_r13(self)
    }

    fn mov_rsi_r14(&mut self) {
        ElfAssembler::mov_rsi_r14(self)
    }

    fn mov_rsi_rsp(&mut self) {
        ElfAssembler::mov_rsi_rsp(self)
    }

    fn sub_r15_r9(&mut self) {
        ElfAssembler::sub_r15_r9(self)
    }

    fn sub_rdx_r15(&mut self) {
        ElfAssembler::sub_rdx_r15(self)
    }

    fn syscall(&mut self) {
        ElfAssembler::syscall(self)
    }

    fn xor_r10_r10(&mut self) {
        ElfAssembler::xor_r10_r10(self)
    }

    fn xor_r12_r12(&mut self) {
        ElfAssembler::xor_r12_r12(self)
    }

    fn xor_r13_r13(&mut self) {
        ElfAssembler::xor_r13_r13(self)
    }

    fn xor_r15_r15(&mut self) {
        ElfAssembler::xor_r15_r15(self)
    }

    fn xor_r8_r8(&mut self) {
        ElfAssembler::xor_r8_r8(self)
    }

    fn xor_rax_rax(&mut self) {
        ElfAssembler::xor_rax_rax(self)
    }

    fn xor_rdi_rdi(&mut self) {
        ElfAssembler::xor_rdi_rdi(self)
    }

    fn add_byte_ptr_rbx_plus_r8_u8(&mut self, operand: u8) {
        ElfAssembler::add_byte_ptr_rbx_plus_r8_u8(self, operand)
    }

    fn cmp_byte_ptr_rbx_plus_r8_u8(&mut self, operand: u8) {
        ElfAssembler::cmp_byte_ptr_rbx_plus_r8_u8(self, operand)
    }

    fn cmp_r15b_u8(&mut self, operand: u8) {
        ElfAssembler::cmp_r15b_u8(self, operand)
    }

    fn cmp_r13_u32(&mut self, operand: u32) {
        ElfAssembler::cmp_r13_u32(self, operand)
    }

    fn cmp_rax_u32(&mut self, operand: u32) {
        ElfAssembler::cmp_rax_u32(self, operand)
    }

    fn mov_rax_u32(&mut self, operand: u32) {
        ElfAssembler::mov_rax_u32(self, operand)
    }

    fn mov_rdi_u32(&mut self, operand: u32) {
        ElfAssembler::mov_rdi_u32(self, operand)
    }

    fn mov_rdx_u32(&mut self, operand: u32) {
        ElfAssembler::mov_rdx_u32(self, operand)
    }

    fn mov_r9_u64(&mut self, operand: u64) {
        ElfAssembler::mov_r9_u64(self, operand)
    }

    fn mov_rbx_addr(&mut self, address: Address) {
        ElfAssembler::mov_rbx_addr(self, address)
    }

    fn mov_r14_addr(&mut self, address: Address) {
        ElfAssembler::mov_r14_addr(self, address)
    }

    fn mov_rsp_addr(&mut self, address: Address) {
        ElfAssembler::mov_rsp_addr(self, address)
    }

    fn add_r8_i8(&mut self, operand: i8) {
        ElfAssembler::add_r8_i8(self, operand)
    }

    fn add_r8_i32(&mut self, operand: i32) {
        ElfAssembler::add_r8_i32(self, operand)
    }

    fn assemble(self) -> (r: Vec<u8>) {
        ElfAssembler::assemble(self)
    }
}

} // verus!
