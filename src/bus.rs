//! The memory bus as the interpreter sees it: RAM from physical address 0 and
//! the boot ROM at the reset vector, accessed big-endian. Unmapped addresses
//! read as zero and ignore writes; the ROM ignores writes.

use vstd::prelude::*;

verus! {

/// Physical address of the boot ROM, which is also the reset vector.
pub const ROM_BASE: u32 = 0x1FC0_0000;

/// Largest boot ROM: it ends at the top of the 29-bit physical window.
pub const ROM_MAX: usize = 0x40_0000;

/// Mask of the 29-bit physical address window.
pub const PHYS_MASK: u32 = 0x1FFF_FFFF;

/// 256 to the power `n`.
pub open spec fn pow256(n: nat) -> nat
    decreases n,
{
    if n == 0 {
        1
    } else {
        256 * pow256((n - 1) as nat)
    }
}

/// `s` with byte `j` replaced by `b`, where `j` is an index of `s`.
pub open spec fn put(s: Seq<u8>, j: int, b: u8) -> Seq<u8> {
    if 0 <= j < s.len() {
        s.update(j, b)
    } else {
        s
    }
}

/// `s` after the low `n` bytes of `v` are stored big-endian from index `a`:
/// the least significant byte lands at `a + n - 1`.
pub open spec fn store(s: Seq<u8>, a: int, n: nat, v: nat) -> Seq<u8>
    decreases n,
{
    if n == 0 {
        s
    } else {
        store(put(s, a + n - 1, (v % 256) as u8), a, (n - 1) as nat, v / 256)
    }
}

/// The byte at physical address `a` of a bus with RAM `ram` and ROM `rom`.
pub open spec fn byte_at(ram: Seq<u8>, rom: Seq<u8>, a: int) -> u8 {
    if 0 <= a < ram.len() {
        ram[a]
    } else if ROM_BASE <= a < ROM_BASE + rom.len() {
        rom[a - ROM_BASE]
    } else {
        0
    }
}

/// The `n` bytes from address `a`, read as a big-endian number.
pub open spec fn load_from(ram: Seq<u8>, rom: Seq<u8>, a: int, n: nat) -> nat
    decreases n,
{
    if n == 0 {
        0
    } else {
        load_from(ram, rom, a, (n - 1) as nat) * 256 + byte_at(ram, rom, a + n - 1) as nat
    }
}

/// Number of instruction words that a fetch at the word address `a` can
/// run through: up to the end of the RAM or ROM that holds `a`, and a
/// single word where `a` lies in neither or at the very end of one.
pub open spec fn run_len(ram_len: nat, rom_len: nat, a: int) -> nat {
    let n = if 0 <= a < ram_len {
        (ram_len - a) / 4
    } else if ROM_BASE <= a < ROM_BASE + rom_len {
        (ROM_BASE + rom_len - a) / 4
    } else {
        1
    };
    if n == 0 {
        1
    } else {
        n as nat
    }
}

/// A run of big-endian instruction words from `base`, read lazily from the
/// bus.
#[derive(Clone, Copy)]
pub struct FetchHandle {
    pub base: u32,
    pub words: u32,
}

impl FetchHandle {
    /// The run stays within the physical window.
    pub open spec fn wf(&self) -> bool {
        self.base + 4 * self.words <= 0x2000_0000
    }

    /// A cursor at the start of the run.
    pub fn iter(&self) -> (r: FetchIter)
        ensures
            r.addr == self.base,
            r.left == self.words,
    {
        FetchIter { addr: self.base, left: self.words }
    }

    /// The word at the start of the run.
    pub fn read(&self, bus: &Bus) -> (r: u32)
        requires
            self.wf(),
        ensures
            r == bus.load(self.base as int, 4),
    {
        proof {
            bus.lemma_load_bound(self.base as int, 4);
            reveal_with_fuel(pow256, 5);
        }
        bus.read(self.base, 4) as u32
    }
}

/// A cursor over a fetch run: the next word's address and how many are left.
pub struct FetchIter {
    pub addr: u32,
    pub left: u32,
}

impl FetchIter {
    pub open spec fn wf(&self) -> bool {
        self.addr + 4 * self.left <= 0x2000_0000
    }

    /// The next word of the run, if any is left.
    pub fn next(&mut self, bus: &Bus) -> (r: Option<u32>)
        requires
            old(self).wf(),
        ensures
            final(self).wf(),
            old(self).left == 0 ==> r is None && *final(self) == *old(self),
            old(self).left > 0 ==> r == Some(bus.load(old(self).addr as int, 4) as u32)
                && final(self).addr == old(self).addr + 4 && final(self).left == old(self).left - 1,
    {
        if self.left == 0 {
            None
        } else {
            proof {
                bus.lemma_load_bound(self.addr as int, 4);
                reveal_with_fuel(pow256, 5);
            }
            let w = bus.read(self.addr, 4) as u32;
            self.addr = self.addr + 4;
            self.left = self.left - 1;
            Some(w)
        }
    }
}

pub struct Bus {
    /// Main memory, from physical address 0.
    pub ram: Vec<u8>,
    /// Boot ROM, from `ROM_BASE`.
    pub rom: Vec<u8>,
}

impl Bus {
    /// RAM stays below the ROM and the ROM within the physical window.
    pub open spec fn wf(&self) -> bool {
        &&& self.ram@.len() <= ROM_BASE
        &&& self.rom@.len() <= ROM_MAX
    }

    /// The byte at physical address `a`.
    pub open spec fn byte(&self, a: int) -> u8 {
        byte_at(self.ram@, self.rom@, a)
    }

    /// The `n` bytes from address `a`, read as a big-endian number.
    pub open spec fn load(&self, a: int, n: nat) -> nat {
        load_from(self.ram@, self.rom@, a, n)
    }

    /// A bus with `ram_size` bytes of zeroed RAM and the given boot ROM.
    pub fn new(ram_size: usize, rom: Vec<u8>) -> (r: Bus)
        requires
            ram_size <= ROM_BASE,
            rom@.len() <= ROM_MAX,
        ensures
            r.wf(),
            r.ram@ == Seq::new(ram_size as nat, |i: int| 0u8),
            r.rom@ == rom@,
    {
        let mut ram: Vec<u8> = Vec::new();
        while ram.len() < ram_size
            invariant
                ram@.len() <= ram_size,
                forall|i: int| 0 <= i < ram@.len() ==> ram@[i] == 0u8,
            decreases ram_size - ram@.len(),
        {
            ram.push(0u8);
        }
        assert(ram@ =~= Seq::new(ram_size as nat, |i: int| 0u8));
        Bus { ram, rom }
    }

    /// The byte at physical address `a`.
    pub fn read_byte(&self, a: u32) -> (r: u8)
        ensures
            r == self.byte(a as int),
    {
        if (a as usize) < self.ram.len() {
            self.ram[a as usize]
        } else if a >= ROM_BASE && ((a - ROM_BASE) as usize) < self.rom.len() {
            self.rom[(a - ROM_BASE) as usize]
        } else {
            0
        }
    }

    /// Reads `n` bytes from `a` as a big-endian number.
    pub fn read(&self, a: u32, n: u32) -> (r: u64)
        requires
            n <= 8,
            a + n <= 0x1_0000_0000,
        ensures
            r == self.load(a as int, n as nat),
    {
        let mut v: u64 = 0;
        let mut i: u32 = 0;
        while i < n
            invariant
                i <= n <= 8,
                a + n <= 0x1_0000_0000,
                v == self.load(a as int, i as nat),
            decreases n - i,
        {
            proof {
                self.lemma_load_bound(a as int, i as nat);
                lemma_pow256_mono((i + 1) as nat, 8);
                lemma_pow256_8();
                assert(v * 256 + 255 < pow256((i + 1) as nat)) by (nonlinear_arith)
                    requires
                        v < pow256(i as nat),
                        pow256((i + 1) as nat) == 256 * pow256(i as nat),
                ;
            }
            let b = self.read_byte(a + i);
            v = v * 256 + b as u64;
            i = i + 1;
        }
        v
    }

    /// Writes the low `n` bytes of `v` big-endian at `a`; bytes outside RAM
    /// are dropped.
    pub fn write(&mut self, a: u32, n: u32, v: u64)
        requires
            n <= 8,
            a + n <= 0x1_0000_0000,
        ensures
            final(self).ram@ == store(old(self).ram@, a as int, n as nat, v as nat),
            final(self).rom@ == old(self).rom@,
            final(self).ram@.len() == old(self).ram@.len(),
    {
        proof {
            lemma_store_len(self.ram@, a as int, n as nat, v as nat);
        }
        let mut k: u32 = n;
        let mut rest: u64 = v;
        while k > 0
            invariant
                k <= n,
                a + n <= 0x1_0000_0000,
                self.rom@ == old(self).rom@,
                self.ram@.len() == old(self).ram@.len(),
                store(self.ram@, a as int, k as nat, rest as nat) == store(
                    old(self).ram@,
                    a as int,
                    n as nat,
                    v as nat,
                ),
            decreases k,
        {
            k = k - 1;
            let b = (rest % 256) as u8;
            let j = a + k;
            if (j as usize) < self.ram.len() {
                self.ram.set(j as usize, b);
            }
            rest = rest / 256;
        }
    }

    /// A run of instruction words from the word address `a`.
    pub fn fetch_read(&self, a: u32) -> (r: FetchHandle)
        requires
            self.wf(),
            a < 0x2000_0000,
            a % 4 == 0,
        ensures
            r.wf(),
            r.base == a,
            r.words == run_len(self.ram@.len(), self.rom@.len(), a as int),
    {
        let n: usize = if (a as usize) < self.ram.len() {
            (self.ram.len() - a as usize) / 4
        } else if a >= ROM_BASE && ((a - ROM_BASE) as usize) < self.rom.len() {
            (ROM_BASE as usize + self.rom.len() - a as usize) / 4
        } else {
            1
        };
        let words: u32 = if n == 0 {
            1
        } else {
            n as u32
        };
        FetchHandle { base: a, words }
    }

    /// `load` of `n` bytes is below 256^n.
    pub proof fn lemma_load_bound(&self, a: int, n: nat)
        ensures
            self.load(a, n) < pow256(n),
        decreases n,
    {
        lemma_load_from_bound(self.ram@, self.rom@, a, n);
    }
}

/// `load_from` of `n` bytes is below 256^n.
pub proof fn lemma_load_from_bound(ram: Seq<u8>, rom: Seq<u8>, a: int, n: nat)
    ensures
        load_from(ram, rom, a, n) < pow256(n),
    decreases n,
{
    if n > 0 {
        lemma_load_from_bound(ram, rom, a, (n - 1) as nat);
        let p = load_from(ram, rom, a, (n - 1) as nat);
        let b = byte_at(ram, rom, a + n - 1);
        assert(p * 256 + b < 256 * pow256((n - 1) as nat)) by (nonlinear_arith)
            requires
                p < pow256((n - 1) as nat),
                b < 256,
        ;
    }
}

/// Whether `t` is `s` after some value is stored in `n` bytes at `a`.
pub open spec fn stored_some(s: Seq<u8>, a: int, n: nat, t: Seq<u8>) -> bool {
    exists|x: nat| #[trigger] store(s, a, n, x) == t
}

/// Storing keeps the length of the memory.
pub proof fn lemma_store_len(s: Seq<u8>, a: int, n: nat, v: nat)
    ensures
        store(s, a, n, v).len() == s.len(),
    decreases n,
{
    if n > 0 {
        lemma_store_len(put(s, a + n - 1, (v % 256) as u8), a, (n - 1) as nat, v / 256);
    }
}

/// Storing keeps the length of the memory, whatever is stored where.
pub proof fn lemma_store_len_any(s: Seq<u8>)
    ensures
        forall|a: int, n: nat, v: nat| #[trigger] store(s, a, n, v).len() == s.len(),
{
    assert forall|a: int, n: nat, v: nat| #[trigger] store(s, a, n, v).len() == s.len() by {
        lemma_store_len(s, a, n, v);
    }
}

/// The physical address of an `n`-byte access at `a`: the 29-bit window,
/// aligned down to the access width.
pub open spec fn phys(a: u32, n: u32) -> u32 {
    if n == 8 {
        a & 0x1FFF_FFF8
    } else if n == 4 {
        a & 0x1FFF_FFFC
    } else if n == 2 {
        a & 0x1FFF_FFFE
    } else {
        a & 0x1FFF_FFFF
    }
}

pub fn phys_addr(a: u32, n: u32) -> (r: u32)
    requires
        n == 1 || n == 2 || n == 4 || n == 8,
    ensures
        r == phys(a, n),
        r + n <= 0x2000_0000,
        r % n == 0,
{
    if n == 8 {
        assert(a & 0x1FFF_FFF8 <= 0x1FFF_FFF8 && (a & 0x1FFF_FFF8) % 8 == 0) by (bit_vector);
        a & 0x1FFF_FFF8
    } else if n == 4 {
        assert(a & 0x1FFF_FFFC <= 0x1FFF_FFFC && (a & 0x1FFF_FFFC) % 4 == 0) by (bit_vector);
        a & 0x1FFF_FFFC
    } else if n == 2 {
        assert(a & 0x1FFF_FFFE <= 0x1FFF_FFFE && (a & 0x1FFF_FFFE) % 2 == 0) by (bit_vector);
        a & 0x1FFF_FFFE
    } else {
        assert(a & 0x1FFF_FFFF <= 0x1FFF_FFFF) by (bit_vector);
        a & 0x1FFF_FFFF
    }
}

/// `pow256` grows with its argument.
pub proof fn lemma_pow256_mono(i: nat, j: nat)
    requires
        i <= j,
    ensures
        pow256(i) <= pow256(j),
    decreases j,
{
    if i < j {
        lemma_pow256_mono(i, (j - 1) as nat);
    }
}

/// 256^8 is 2^64.
pub proof fn lemma_pow256_8()
    ensures
        pow256(8) == 0x1_0000_0000_0000_0000,
{
    reveal_with_fuel(pow256, 9);
}

} // verus!
