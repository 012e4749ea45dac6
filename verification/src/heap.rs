//! Heap emulation for the foreign synthesis engine. The engine references
//! memory purely by numeric address, so this layer tracks logical regions —
//! owned byte buffers keyed by a base address that stays unique among live
//! regions — and offers the allocate / release / resize triad the engine's
//! dynamic-memory contract expects, plus a wholesale reset between requests.
//!
//! Addresses are handed out from a frontier counter that never moves
//! backwards, so an address is never reused: a base address identifies one
//! region for the whole life of the emulator.

use vstd::prelude::*;

verus! {

/// One tracked allocation: a base address and the bytes it owns.
pub struct Region {
    pub addr: u64,
    pub data: Vec<u8>,
}

spec fn has_addr(rs: Seq<Region>, a: u64) -> bool {
    exists|i: int| 0 <= i < rs.len() && #[trigger] rs[i].addr == a
}

spec fn index_of(rs: Seq<Region>, a: u64) -> int {
    choose|i: int| 0 <= i < rs.len() && #[trigger] rs[i].addr == a
}

spec fn unique_addrs(rs: Seq<Region>) -> bool {
    forall|i: int, j: int|
        0 <= i < rs.len() && 0 <= j < rs.len() && i != j ==> #[trigger] rs[i].addr != #[trigger] rs[j].addr
}

/// The live set of a sequence of regions: each base address maps to the bytes
/// of the region that claims it.
spec fn region_map(rs: Seq<Region>) -> Map<u64, Seq<u8>> {
    Map::new(|a: u64| has_addr(rs, a), |a: u64| rs[index_of(rs, a)].data@)
}

proof fn lemma_index_of(rs: Seq<Region>, a: u64)
    requires
        unique_addrs(rs),
        has_addr(rs, a),
    ensures
        0 <= index_of(rs, a) < rs.len(),
        rs[index_of(rs, a)].addr == a,
        forall|i: int| 0 <= i < rs.len() && #[trigger] rs[i].addr == a ==> i == index_of(rs, a),
{
}

proof fn lemma_map_push(rs: Seq<Region>, r: Region)
    requires
        unique_addrs(rs),
        !has_addr(rs, r.addr),
    ensures
        region_map(rs.push(r)) == region_map(rs).insert(r.addr, r.data@),
        unique_addrs(rs.push(r)),
{
    let s = rs.push(r);
    let m1 = region_map(s);
    let m2 = region_map(rs).insert(r.addr, r.data@);
    assert forall|a: u64| m1.dom().contains(a) implies m2.dom().contains(a) by {
        let i = choose|i: int| 0 <= i < s.len() && #[trigger] s[i].addr == a;
        if i < rs.len() {
            assert(rs[i].addr == a);
        }
    }
    assert forall|a: u64| m2.dom().contains(a) implies m1.dom().contains(a) by {
        if a == r.addr {
            assert(s[rs.len() as int].addr == a);
        } else {
            let i = index_of(rs, a);
            lemma_index_of(rs, a);
            assert(s[i].addr == a);
        }
    }
    assert forall|a: u64| m1.dom().contains(a) implies m1[a] == m2[a] by {
        let i = index_of(s, a);
        assert(0 <= i < s.len() && s[i].addr == a);
        if a == r.addr {
            if i < rs.len() {
                assert(rs[i].addr == r.addr);
                assert(false);
            }
            assert(s[i] == r);
        } else {
            assert(i < rs.len());
            assert(rs[i].addr == a);
            lemma_index_of(rs, a);
            assert(i == index_of(rs, a));
            assert(s[i] == rs[i]);
        }
    }
    assert(m1 =~= m2);
    assert forall|i: int, j: int|
        0 <= i < s.len() && 0 <= j < s.len() && i != j implies s[i].addr != s[j].addr by {
        if i < rs.len() && j < rs.len() {
            assert(s[i] == rs[i] && s[j] == rs[j]);
        } else if i < rs.len() {
            assert(s[j] == r && s[i] == rs[i]);
            assert(!(rs[i].addr == r.addr));
        } else {
            assert(s[i] == r && s[j] == rs[j]);
            assert(!(rs[j].addr == r.addr));
        }
    }
}

proof fn lemma_map_remove(rs: Seq<Region>, i: int)
    requires
        unique_addrs(rs),
        0 <= i < rs.len(),
    ensures
        region_map(rs.remove(i)) == region_map(rs).remove(rs[i].addr),
        unique_addrs(rs.remove(i)),
        forall|k: int| 0 <= k < rs.len() - 1 ==> exists|j: int|
            0 <= j < rs.len() && #[trigger] rs.remove(i)[k] == rs[j],
{
    let s = rs.remove(i);
    rs.remove_ensures(i);
    let b = rs[i].addr;
    let m1 = region_map(s);
    let m2 = region_map(rs).remove(b);
    assert forall|k: int| 0 <= k < rs.len() - 1 implies exists|j: int|
        0 <= j < rs.len() && #[trigger] s[k] == rs[j] by {
        if k < i {
            assert(s[k] == rs[k]);
        } else {
            assert(s[k] == rs[k + 1]);
        }
    }
    assert forall|k: int, l: int|
        0 <= k < s.len() && 0 <= l < s.len() && k != l implies s[k].addr != s[l].addr by {
        let k0 = if k < i { k } else { k + 1 };
        let l0 = if l < i { l } else { l + 1 };
        assert(s[k] == rs[k0] && s[l] == rs[l0]);
        assert(k0 != l0);
    }
    assert forall|a: u64| m1.dom().contains(a) implies m2.dom().contains(a) by {
        let k = choose|k: int| 0 <= k < s.len() && #[trigger] s[k].addr == a;
        let k0 = if k < i { k } else { k + 1 };
        assert(s[k] == rs[k0]);
        assert(rs[k0].addr == a);
        assert(k0 != i);
        assert(a != b);
    }
    assert forall|a: u64| m2.dom().contains(a) implies m1.dom().contains(a) by {
        assert(a != b && has_addr(rs, a));
        let j = choose|j: int| 0 <= j < rs.len() && #[trigger] rs[j].addr == a;
        assert(j != i);
        let k = if j < i { j } else { j - 1 };
        assert(s[k] == rs[j]);
        assert(s[k].addr == a);
    }
    assert forall|a: u64| m1.dom().contains(a) implies m1[a] == m2[a] by {
        let k = index_of(s, a);
        assert(0 <= k < s.len() && s[k].addr == a);
        let k0 = if k < i { k } else { k + 1 };
        assert(s[k] == rs[k0]);
        lemma_index_of(rs, a);
        assert(k0 == index_of(rs, a));
        assert(a != b);
        assert(m2[a] == rs[k0].data@);
    }
    assert(m1 =~= m2);
}

proof fn lemma_map_update(rs: Seq<Region>, i: int, r: Region)
    requires
        unique_addrs(rs),
        0 <= i < rs.len(),
        r.addr == rs[i].addr,
    ensures
        region_map(rs.update(i, r)) == region_map(rs).insert(r.addr, r.data@),
        unique_addrs(rs.update(i, r)),
{
    let s = rs.update(i, r);
    let m1 = region_map(s);
    let m2 = region_map(rs).insert(r.addr, r.data@);
    assert forall|k: int, l: int|
        0 <= k < s.len() && 0 <= l < s.len() && k != l implies s[k].addr != s[l].addr by {
        assert(s[k].addr == rs[k].addr && s[l].addr == rs[l].addr);
    }
    assert forall|a: u64| m1.dom().contains(a) implies m2.dom().contains(a) by {
        let k = choose|k: int| 0 <= k < s.len() && #[trigger] s[k].addr == a;
        assert(rs[k].addr == a);
    }
    assert forall|a: u64| m2.dom().contains(a) implies m1.dom().contains(a) by {
        if a == r.addr {
            assert(s[i].addr == a);
        } else {
            let k = choose|k: int| 0 <= k < rs.len() && #[trigger] rs[k].addr == a;
            assert(s[k].addr == a);
        }
    }
    assert forall|a: u64| m1.dom().contains(a) implies m1[a] == m2[a] by {
        let k = index_of(s, a);
        assert(0 <= k < s.len() && s[k].addr == a);
        if a == r.addr {
            assert(rs[k].addr == rs[i].addr);
            assert(k == i);
            assert(s[k] == r);
        } else {
            assert(k != i);
            assert(s[k] == rs[k]);
            lemma_index_of(rs, a);
            assert(k == index_of(rs, a));
        }
    }
    assert(m1 =~= m2);
}

/// A zero-filled byte string of length `n`: the contents of a fresh region.
pub open spec fn zero_bytes(n: nat) -> Seq<u8> {
    Seq::new(n, |i: int| 0u8)
}

/// The contents of a region of length `n` grown or shrunk from `d`: the
/// common prefix is preserved and any extension is zero-filled.
pub open spec fn resized_bytes(d: Seq<u8>, n: nat) -> Seq<u8> {
    Seq::new(n, |i: int| if i < d.len() { d[i] } else { 0u8 })
}

/// The engine expects a distinguishable address even for an empty request, so
/// a size of zero is coerced to one.
pub open spec fn checked_size(size: u32) -> u32 {
    if size == 0 { 1u32 } else { size }
}

/// The one failure the emulator can report: the address frontier cannot
/// advance any further. In the bounded target environment this never occurs.
#[derive(Clone, Copy, Debug, PartialEq, Eq, Structural)]
pub enum HeapError {
    AddressSpaceExhausted,
}

/// Tracks the logical memory regions the foreign engine allocates through its
/// dynamic-memory contract. Exclusively owned by the worker's execution
/// context; the request server never touches it.
pub struct HeapEmulator {
    regions: Vec<Region>,
    next_addr: u64,
}

impl HeapEmulator {
    /// The live set: every currently tracked base address, mapped to the
    /// bytes of its region.
    pub closed spec fn live(self) -> Map<u64, Seq<u8>> {
        region_map(self.regions@)
    }

    /// The address frontier: every address ever handed out lies strictly
    /// below it, and it never moves backwards.
    pub closed spec fn frontier(self) -> u64 {
        self.next_addr
    }

    pub closed spec fn wf(self) -> bool {
        &&& unique_addrs(self.regions@)
        &&& 1 <= self.next_addr
        &&& forall|i: int| 0 <= i < self.regions@.len()
                ==> 1 <= #[trigger] self.regions@[i].addr < self.next_addr
    }

    /// Every live address is nonzero (never the engine's null) and lies
    /// strictly below the frontier. Since allocation hands out the frontier
    /// and the frontier never moves backwards — not even across a reset — an
    /// address allocated later is disjoint from every address live, or freed,
    /// earlier.
    pub proof fn lemma_live_below_frontier(self, a: u64)
        requires
            self.wf(),
            self.live().dom().contains(a),
        ensures
            1 <= a < self.frontier(),
    {
        let i = choose|i: int| 0 <= i < self.regions@.len() && #[trigger] self.regions@[i].addr == a;
        assert(1 <= self.regions@[i].addr < self.next_addr);
    }

    /// A fresh emulator: no live regions, frontier at the first nonzero
    /// address.
    pub fn new() -> (h: HeapEmulator)
        ensures
            h.wf(),
            h.live() == Map::<u64, Seq<u8>>::empty(),
            h.frontier() == 1,
    {
        let h = HeapEmulator { regions: Vec::new(), next_addr: 1 };
        proof {
            assert(h.live() =~= Map::<u64, Seq<u8>>::empty());
        }
        h
    }

    /// True when the frontier can still advance by the coerced size, i.e.
    /// when `allocate` and `resize` are owed success.
    pub open spec fn can_allocate(self, size: u32) -> bool {
        self.frontier() + checked_size(size) <= u64::MAX
    }

    fn find_region(&self, addr: u64) -> (r: Option<usize>)
        ensures
            r matches Some(i) ==> i < self.regions@.len() && self.regions@[i as int].addr == addr,
            r is None ==> !has_addr(self.regions@, addr),
    {
        let n = self.regions.len();
        let mut i: usize = 0;
        while i < n
            invariant
                i <= n,
                n == self.regions@.len(),
                forall|j: int| 0 <= j < i ==> #[trigger] self.regions@[j].addr != addr,
            decreases n - i,
        {
            if self.regions[i].addr == addr {
                return Some(i);
            }
            i += 1;
        }
        None
    }

    fn zero_region(size: u32) -> (data: Vec<u8>)
        ensures
            data@ == zero_bytes(size as nat),
    {
        let mut data: Vec<u8> = Vec::new();
        let mut i: u32 = 0;
        while i < size
            invariant
                i <= size,
                data@ == zero_bytes(i as nat),
            decreases size - i,
        {
            data.push(0u8);
            i += 1;
            proof {
                assert(data@ =~= zero_bytes(i as nat));
            }
        }
        data
    }

    /// Creates a fresh zero-initialized region and returns its base address.
    /// A size of zero is coerced to one so the address is distinguishable.
    /// The address is the current frontier: it differs from every address
    /// live now or ever freed. Fails only when the frontier cannot advance,
    /// which surfaces as a resource error rather than ending the process.
    pub fn allocate(&mut self, size: u32) -> (r: Result<u64, HeapError>)
        requires
            old(self).wf(),
        ensures
            final(self).wf(),
            r is Ok <==> old(self).can_allocate(size),
            final(self).frontier() >= old(self).frontier(),
            r matches Ok(a) ==> {
                &&& a == old(self).frontier()
                &&& !old(self).live().dom().contains(a)
                &&& final(self).live() == old(self).live().insert(
                    a,
                    zero_bytes(checked_size(size) as nat),
                )
                &&& final(self).frontier() == old(self).frontier() + checked_size(size)
            },
            r is Err ==> *final(self) == *old(self) && r == Err::<u64, HeapError>(
                HeapError::AddressSpaceExhausted,
            ),
    {
        let c: u32 = if size == 0 { 1 } else { size };
        if self.next_addr > u64::MAX - (c as u64) {
            return Err(HeapError::AddressSpaceExhausted);
        }
        let addr = self.next_addr;
        let data = Self::zero_region(c);
        let ghost rs = self.regions@;
        self.regions.push(Region { addr, data });
        self.next_addr = addr + c as u64;
        proof {
            let rr = self.regions@.last();
            assert(self.regions@ == rs.push(rr));
            assert(!has_addr(rs, addr)) by {
                assert forall|i: int| 0 <= i < rs.len() implies #[trigger] rs[i].addr != addr by {
                    assert(rs[i].addr < addr);
                }
            }
            assert(!old(self).live().dom().contains(addr));
            lemma_map_push(rs, rr);
        }
        Ok(addr)
    }

    /// Removes the region whose base address matches, if any, and reports
    /// whether one was found. An address this layer never handed out — the
    /// engine may pass addresses of static data — or one already released
    /// leaves the emulator exactly as it was: a diagnostic for the caller to
    /// log, never a failure.
    pub fn release(&mut self, addr: u64) -> (found: bool)
        requires
            old(self).wf(),
        ensures
            final(self).wf(),
            found == old(self).live().dom().contains(addr),
            final(self).frontier() == old(self).frontier(),
            found ==> final(self).live() == old(self).live().remove(addr),
            !found ==> *final(self) == *old(self),
    {
        match self.find_region(addr) {
            Some(i) => {
                let ghost rs = self.regions@;
                proof {
                    assert(has_addr(rs, addr));
                    lemma_map_remove(rs, i as int);
                }
                self.regions.remove(i);
                proof {
                    assert forall|k: int| 0 <= k < self.regions@.len()
                        implies 1 <= #[trigger] self.regions@[k].addr < self.next_addr by {
                        let j = choose|j: int|
                            0 <= j < rs.len() && #[trigger] self.regions@[k] == rs[j];
                    }
                }
                true
            }
            None => {
                proof {
                    assert(!old(self).live().dom().contains(addr));
                }
                false
            }
        }
    }

    /// Emulates reallocation. The engine addresses memory purely by number,
    /// so the region moves to a fresh address: the caller must use the
    /// returned value, as address stability is not guaranteed. Bytes common
    /// to the old and new size are preserved and any extension is
    /// zero-filled. A null (zero) address behaves as a fresh allocation, and
    /// an unknown address falls back to one — a recoverable diagnostic, not a
    /// failure.
    pub fn resize(&mut self, addr: u64, new_size: u32) -> (r: Result<u64, HeapError>)
        requires
            old(self).wf(),
        ensures
            final(self).wf(),
            r is Ok <==> old(self).can_allocate(new_size),
            final(self).frontier() >= old(self).frontier(),
            r is Err ==> *final(self) == *old(self),
            r matches Ok(a) ==> {
                &&& a == old(self).frontier()
                &&& !old(self).live().dom().contains(a)
                &&& final(self).frontier() == old(self).frontier() + checked_size(new_size)
                &&& (old(self).live().dom().contains(addr) ==> final(self).live() == old(
                    self,
                ).live().remove(addr).insert(
                    a,
                    resized_bytes(old(self).live()[addr], checked_size(new_size) as nat),
                ))
                &&& (!old(self).live().dom().contains(addr) ==> final(self).live() == old(
                    self,
                ).live().insert(a, zero_bytes(checked_size(new_size) as nat)))
            },
    {
        if addr == 0 {
            proof {
                if old(self).live().dom().contains(0u64) {
                    old(self).lemma_live_below_frontier(0u64);
                }
            }
            return self.allocate(new_size);
        }
        match self.find_region(addr) {
            Some(i) => {
                let c: u32 = if new_size == 0 { 1 } else { new_size };
                if self.next_addr > u64::MAX - (c as u64) {
                    return Err(HeapError::AddressSpaceExhausted);
                }
                let new_addr = self.next_addr;
                let ghost old_data = self.regions@[i as int].data@;
                let mut data: Vec<u8> = Vec::new();
                let mut k: usize = 0;
                while k < c as usize
                    invariant
                        k <= c as usize,
                        i < self.regions@.len(),
                        self.regions@[i as int].data@ == old_data,
                        data@ == resized_bytes(old_data, k as nat),
                    decreases c as usize - k,
                {
                    let b: u8 = if k < self.regions[i].data.len() {
                        self.regions[i].data[k]
                    } else {
                        0u8
                    };
                    data.push(b);
                    k += 1;
                    proof {
                        assert(data@ =~= resized_bytes(old_data, k as nat));
                    }
                }
                let ghost rs = self.regions@;
                proof {
                    assert(has_addr(rs, addr));
                    lemma_index_of(rs, addr);
                    assert(index_of(rs, addr) == i as int);
                    assert(old(self).live()[addr] == old_data);
                    lemma_map_remove(rs, i as int);
                }
                self.regions.remove(i);
                let ghost rs2 = self.regions@;
                self.regions.push(Region { addr: new_addr, data });
                self.next_addr = new_addr + c as u64;
                proof {
                    let rr = self.regions@.last();
                    assert(self.regions@ == rs2.push(rr));
                    assert(!has_addr(rs2, new_addr)) by {
                        assert forall|j: int| 0 <= j < rs2.len()
                            implies #[trigger] rs2[j].addr != new_addr by {
                            let j0 = choose|j0: int|
                                0 <= j0 < rs.len() && #[trigger] rs2[j] == rs[j0];
                            assert(rs[j0].addr < new_addr);
                        }
                    }
                    assert forall|j: int| 0 <= j < rs2.len()
                        implies 1 <= #[trigger] rs2[j].addr < new_addr by {
                        let j0 = choose|j0: int| 0 <= j0 < rs.len() && #[trigger] rs2[j] == rs[j0];
                        assert(1 <= rs[j0].addr < old(self).next_addr);
                    }
                    lemma_map_push(rs2, rr);
                    assert(!old(self).live().dom().contains(new_addr)) by {
                        if old(self).live().dom().contains(new_addr) {
                            old(self).lemma_live_below_frontier(new_addr);
                        }
                    }
                }
                Ok(new_addr)
            }
            None => {
                proof {
                    assert(!old(self).live().dom().contains(addr));
                }
                self.allocate(new_size)
            }
        }
    }

    /// Discards every live region at once. Used between independent requests:
    /// the engine does not reliably pair each allocation with a release, so
    /// each request starts from a clean arena. The frontier is kept, so
    /// addresses handed out afterwards never collide with addresses freed
    /// before the reset.
    pub fn reset(&mut self)
        requires
            old(self).wf(),
        ensures
            final(self).wf(),
            final(self).live() == Map::<u64, Seq<u8>>::empty(),
            final(self).frontier() == old(self).frontier(),
    {
        self.regions.clear();
        proof {
            assert(self.live() =~= Map::<u64, Seq<u8>>::empty());
        }
    }

    /// The size of the live region at the given base address, if any.
    pub fn region_len(&self, addr: u64) -> (r: Option<usize>)
        requires
            self.wf(),
        ensures
            self.live().dom().contains(addr) ==> r == Some(self.live()[addr].len() as usize),
            !self.live().dom().contains(addr) ==> r is None,
    {
        match self.find_region(addr) {
            Some(i) => {
                proof {
                    lemma_index_of(self.regions@, addr);
                }
                Some(self.regions[i].data.len())
            }
            None => None,
        }
    }

    /// Reads one byte of a live region, as the engine does through the
    /// addresses it was handed. Out of range or unknown addresses yield
    /// nothing.
    pub fn read_byte(&self, addr: u64, off: usize) -> (r: Option<u8>)
        requires
            self.wf(),
        ensures
            (self.live().dom().contains(addr) && off < self.live()[addr].len()) ==> r == Some(
                self.live()[addr][off as int],
            ),
            !(self.live().dom().contains(addr) && off < self.live()[addr].len()) ==> r is None,
    {
        match self.find_region(addr) {
            Some(i) => {
                proof {
                    lemma_index_of(self.regions@, addr);
                }
                if off < self.regions[i].data.len() {
                    Some(self.regions[i].data[off])
                } else {
                    None
                }
            }
            None => None,
        }
    }

    /// Writes one byte of a live region, mirroring the engine's writes
    /// through the addresses it was handed. Reports whether the write landed;
    /// an unknown address or an offset out of range changes nothing.
    pub fn write_byte(&mut self, addr: u64, off: usize, b: u8) -> (ok: bool)
        requires
            old(self).wf(),
        ensures
            final(self).wf(),
            final(self).frontier() == old(self).frontier(),
            ok == (old(self).live().dom().contains(addr) && off < old(self).live()[addr].len()),
            ok ==> final(self).live() == old(self).live().insert(
                addr,
                old(self).live()[addr].update(off as int, b),
            ),
            !ok ==> *final(self) == *old(self),
    {
        match self.find_region(addr) {
            Some(i) => {
                proof {
                    lemma_index_of(self.regions@, addr);
                }
                if off < self.regions[i].data.len() {
                    let ghost rs = self.regions@;
                    self.regions[i].data[off] = b;
                    proof {
                        let r = self.regions@[i as int];
                        assert(self.regions@ == rs.update(i as int, r));
                        assert(r.addr == addr && r.data@ == rs[i as int].data@.update(
                            off as int,
                            b,
                        ));
                        lemma_map_update(rs, i as int, r);
                    }
                    true
                } else {
                    false
                }
            }
            None => {
                proof {
                    assert(!old(self).live().dom().contains(addr));
                }
                false
            }
        }
    }

    /// How many regions are currently live.
    pub fn live_count(&self) -> (n: usize)
        requires
            self.wf(),
        ensures
            n == self.live().dom().len(),
    {
        proof {
            Self::lemma_region_map_len(self.regions@);
        }
        self.regions.len()
    }

    proof fn lemma_region_map_len(rs: Seq<Region>)
        requires
            unique_addrs(rs),
        ensures
            region_map(rs).dom().len() == rs.len(),
            region_map(rs).dom().finite(),
        decreases rs.len(),
    {
        if rs.len() == 0 {
            assert(region_map(rs).dom() =~= Set::<u64>::empty());
        } else {
            let prefix = rs.drop_last();
            let last = rs.last();
            assert forall|i: int, j: int|
                0 <= i < prefix.len() && 0 <= j < prefix.len() && i != j
                implies #[trigger] prefix[i].addr != #[trigger] prefix[j].addr by {
                assert(prefix[i] == rs[i] && prefix[j] == rs[j]);
            }
            assert(!has_addr(prefix, last.addr)) by {
                if has_addr(prefix, last.addr) {
                    let i = choose|i: int|
                        0 <= i < prefix.len() && #[trigger] prefix[i].addr == last.addr;
                    assert(rs[i].addr == rs[rs.len() - 1].addr);
                    assert(false);
                }
            }
            Self::lemma_region_map_len(prefix);
            lemma_map_push(prefix, last);
            assert(prefix.push(last) =~= rs);
            assert(region_map(rs).dom() =~= region_map(prefix).dom().insert(last.addr));
            vstd::set::axiom_set_insert_len(region_map(prefix).dom(), last.addr);
        }
    }
}

/// Releasing a freshly allocated region restores the live set exactly as it
/// was before the allocation; every other region keeps its address and bytes.
/// A second release of the same address finds nothing and, by `release`'s
/// contract, changes nothing at all.
pub proof fn lemma_release_after_allocate(live: Map<u64, Seq<u8>>, a: u64, d: Seq<u8>)
    requires
        !live.dom().contains(a),
    ensures
        live.insert(a, d).remove(a) == live,
        !live.insert(a, d).remove(a).dom().contains(a),
        forall|x: u64| x != a ==> live.insert(a, d).remove(a).dom().contains(x)
            == live.dom().contains(x),
        forall|x: u64| x != a && live.dom().contains(x) ==> live.insert(a, d).remove(a)[x]
            == live[x],
{
    assert(live.insert(a, d).remove(a) =~= live);
}

/// Bytes common to the old and new size survive a resize; bytes beyond the
/// old size are zero. `resize`'s contract states that the moved region holds
/// `resized_bytes` of its old contents, and a fresh allocation holds
/// `zero_bytes`, which is `resized_bytes` of an empty region.
pub proof fn lemma_resized_bytes(d: Seq<u8>, n: nat)
    ensures
        resized_bytes(d, n).len() == n,
        forall|i: int| 0 <= i < n && i < d.len() ==> resized_bytes(d, n)[i] == d[i],
        forall|i: int| 0 <= i < n && d.len() <= i ==> resized_bytes(d, n)[i] == 0,
        resized_bytes(Seq::<u8>::empty(), n) == zero_bytes(n),
{
    assert(resized_bytes(Seq::<u8>::empty(), n) =~= zero_bytes(n));
}

} // verus!
