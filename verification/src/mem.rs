//! Addresses.
//!
//! Physical and virtual addresses are kept apart by type. Adding an offset
//! to an address, or taking one away, gives an address of the same kind;
//! adding or subtracting two addresses of one kind gives a plain number.
//! The part of physical memory that is mapped into the higher half of the
//! virtual address space lies there at a fixed distance, the HHDM offset,
//! which the functions that cross from one kind to the other take as an
//! argument.

use core::ops::{Add, Sub};
use vstd::prelude::*;
use vstd::std_specs::ops::{AddSpecImpl, SubSpecImpl};

verus! {

/// A physical address.
#[derive(Clone, Copy, Debug, PartialOrd, Ord, PartialEq, Eq, Structural)]
pub struct PhysAddr(pub usize);

/// A virtual address.
#[derive(Clone, Copy, Debug, PartialOrd, Ord, PartialEq, Eq, Structural)]
pub struct VirtAddr(pub usize);

impl VirtAddr {
    /// The physical address that is mapped at this virtual address, for an
    /// address in the higher-half direct map.
    pub open spec fn spec_subtract_hhdm_offset(self, hhdm_offset: usize) -> PhysAddr {
        PhysAddr((self.0 - hhdm_offset) as usize)
    }

    /// The physical address that is mapped at this virtual address, which
    /// has to lie in the higher-half direct map, that is at or above
    /// `hhdm_offset`.
    #[verifier::when_used_as_spec(spec_subtract_hhdm_offset)]
    pub fn subtract_hhdm_offset(self, hhdm_offset: usize) -> (phys: PhysAddr)
        requires
            hhdm_offset <= self.0,
        ensures
            phys.0 == self.0 - hhdm_offset,
            phys == self.spec_subtract_hhdm_offset(hhdm_offset),
    {
        PhysAddr(self.0 - hhdm_offset)
    }
}

impl PhysAddr {
    /// The virtual address at which the higher-half direct map shows this
    /// physical address.
    pub open spec fn spec_add_hhdm_offset(self, hhdm_offset: usize) -> VirtAddr {
        VirtAddr((self.0 + hhdm_offset) as usize)
    }

    /// The virtual address at which the higher-half direct map shows this
    /// physical address. The sum has to be an address.
    #[verifier::when_used_as_spec(spec_add_hhdm_offset)]
    pub fn add_hhdm_offset(self, hhdm_offset: usize) -> (virt: VirtAddr)
        requires
            self.0 + hhdm_offset <= usize::MAX,
        ensures
            virt.0 == self.0 + hhdm_offset,
            virt == self.spec_add_hhdm_offset(hhdm_offset),
    {
        VirtAddr(self.0 + hhdm_offset)
    }
}

/// The hexadecimal digit that stands for `nibble`, a number below 16.
pub open spec fn hex_digit(nibble: int) -> char {
    if nibble == 0 {
        '0'
    } else if nibble == 1 {
        '1'
    } else if nibble == 2 {
        '2'
    } else if nibble == 3 {
        '3'
    } else if nibble == 4 {
        '4'
    } else if nibble == 5 {
        '5'
    } else if nibble == 6 {
        '6'
    } else if nibble == 7 {
        '7'
    } else if nibble == 8 {
        '8'
    } else if nibble == 9 {
        '9'
    } else if nibble == 10 {
        'a'
    } else if nibble == 11 {
        'b'
    } else if nibble == 12 {
        'c'
    } else if nibble == 13 {
        'd'
    } else if nibble == 14 {
        'e'
    } else {
        'f'
    }
}

/// The hexadecimal digits of `value`, the most significant first, without
/// leading zeros; one zero for the value 0.
pub open spec fn hex_digits(value: nat) -> Seq<char>
    decreases value,
{
    if value < 16 {
        seq![hex_digit(value as int)]
    } else {
        hex_digits(value / 16).push(hex_digit((value % 16) as int))
    }
}

/// How an address is shown: `0x` and the hexadecimal digits of `value`.
pub open spec fn hex_text(value: nat) -> Seq<char> {
    seq!['0', 'x'] + hex_digits(value)
}

/// The text of the hexadecimal digit for `nibble`.
fn digit_text(nibble: usize) -> (text: &'static str)
    requires
        nibble < 16,
    ensures
        text@ == seq![hex_digit(nibble as int)],
{
    proof {
        reveal_strlit("0");
        reveal_strlit("1");
        reveal_strlit("2");
        reveal_strlit("3");
        reveal_strlit("4");
        reveal_strlit("5");
        reveal_strlit("6");
        reveal_strlit("7");
        reveal_strlit("8");
        reveal_strlit("9");
        reveal_strlit("a");
        reveal_strlit("b");
        reveal_strlit("c");
        reveal_strlit("d");
        reveal_strlit("e");
        reveal_strlit("f");
    }
    let text = if nibble == 0 {
        "0"
    } else if nibble == 1 {
        "1"
    } else if nibble == 2 {
        "2"
    } else if nibble == 3 {
        "3"
    } else if nibble == 4 {
        "4"
    } else if nibble == 5 {
        "5"
    } else if nibble == 6 {
        "6"
    } else if nibble == 7 {
        "7"
    } else if nibble == 8 {
        "8"
    } else if nibble == 9 {
        "9"
    } else if nibble == 10 {
        "a"
    } else if nibble == 11 {
        "b"
    } else if nibble == 12 {
        "c"
    } else if nibble == 13 {
        "d"
    } else if nibble == 14 {
        "e"
    } else {
        "f"
    };
    assert(text@ =~= seq![hex_digit(nibble as int)]);
    text
}

/// Appends the hexadecimal digits of `value` to `text`.
fn push_hex_digits(text: &mut String, value: usize)
    ensures
        final(text)@ == old(text)@ + hex_digits(value as nat),
    decreases value,
{
    if value >= 16 {
        push_hex_digits(text, value / 16);
    }
    text.append(digit_text(value % 16));
    assert(text@ =~= old(text)@ + hex_digits(value as nat));
}

/// `value` as a hexadecimal number with the prefix `0x`.
pub fn to_hex(value: usize) -> (text: String)
    ensures
        text@ == hex_text(value as nat),
{
    proof {
        reveal_strlit("0x");
    }
    let mut text = String::from_str("0x");
    assert(text@ =~= seq!['0', 'x']);
    push_hex_digits(&mut text, value);
    text
}

impl VirtAddr {
    /// The address as a hexadecimal number with the prefix `0x`.
    pub fn to_hex(&self) -> (text: String)
        ensures
            text@ == hex_text(self.0 as nat),
    {
        to_hex(self.0)
    }
}

impl PhysAddr {
    /// The address as a hexadecimal number with the prefix `0x`.
    pub fn to_hex(&self) -> (text: String)
        ensures
            text@ == hex_text(self.0 as nat),
    {
        to_hex(self.0)
    }
}

/// Mapping a physical address into the higher half and back gives the
/// address that one started from, whatever the offset, as long as the mapped
/// address exists.
pub proof fn lemma_hhdm_round_trip(phys: PhysAddr, hhdm_offset: usize)
    requires
        phys.0 + hhdm_offset <= usize::MAX,
    ensures
        phys.add_hhdm_offset(hhdm_offset).subtract_hhdm_offset(hhdm_offset) == phys,
        hhdm_offset <= phys.add_hhdm_offset(hhdm_offset).0,
{
}

/// Taking a virtual address of the higher half down to its physical address
/// and back up gives the address that one started from.
pub proof fn lemma_hhdm_round_trip_from_virtual(virt: VirtAddr, hhdm_offset: usize)
    requires
        hhdm_offset <= virt.0,
    ensures
        virt.subtract_hhdm_offset(hhdm_offset).add_hhdm_offset(hhdm_offset) == virt,
{
}

impl Default for PhysAddr {
    fn default() -> (zero: PhysAddr)
        ensures
            zero.0 == 0,
    {
        PhysAddr(0)
    }
}

impl Default for VirtAddr {
    fn default() -> (zero: VirtAddr)
        ensures
            zero.0 == 0,
    {
        VirtAddr(0)
    }
}

impl Add<usize> for VirtAddr {
    type Output = VirtAddr;

    /// The address `rhs` bytes further up.
    fn add(self, rhs: usize) -> (sum: VirtAddr) {
        VirtAddr(self.0 + rhs)
    }
}

impl AddSpecImpl<usize> for VirtAddr {
    open spec fn obeys_add_spec() -> bool {
        true
    }

    open spec fn add_req(self, rhs: usize) -> bool {
        self.0 + rhs <= usize::MAX
    }

    open spec fn add_spec(self, rhs: usize) -> VirtAddr {
        VirtAddr((self.0 + rhs) as usize)
    }
}

impl Add<VirtAddr> for VirtAddr {
    type Output = usize;

    /// The sum of the two addresses, as a plain number.
    fn add(self, rhs: VirtAddr) -> (sum: usize) {
        self.0 + rhs.0
    }
}

impl AddSpecImpl<VirtAddr> for VirtAddr {
    open spec fn obeys_add_spec() -> bool {
        true
    }

    open spec fn add_req(self, rhs: VirtAddr) -> bool {
        self.0 + rhs.0 <= usize::MAX
    }

    open spec fn add_spec(self, rhs: VirtAddr) -> usize {
        (self.0 + rhs.0) as usize
    }
}

impl Sub<usize> for VirtAddr {
    type Output = VirtAddr;

    /// The address `rhs` bytes further down.
    fn sub(self, rhs: usize) -> (difference: VirtAddr) {
        VirtAddr(self.0 - rhs)
    }
}

impl SubSpecImpl<usize> for VirtAddr {
    open spec fn obeys_sub_spec() -> bool {
        true
    }

    open spec fn sub_req(self, rhs: usize) -> bool {
        rhs <= self.0
    }

    open spec fn sub_spec(self, rhs: usize) -> VirtAddr {
        VirtAddr((self.0 - rhs) as usize)
    }
}

impl Sub<VirtAddr> for VirtAddr {
    type Output = usize;

    /// The distance from `rhs` up to this address.
    fn sub(self, rhs: VirtAddr) -> (distance: usize) {
        self.0 - rhs.0
    }
}

impl SubSpecImpl<VirtAddr> for VirtAddr {
    open spec fn obeys_sub_spec() -> bool {
        true
    }

    open spec fn sub_req(self, rhs: VirtAddr) -> bool {
        rhs.0 <= self.0
    }

    open spec fn sub_spec(self, rhs: VirtAddr) -> usize {
        (self.0 - rhs.0) as usize
    }
}

impl Add<usize> for PhysAddr {
    type Output = PhysAddr;

    /// The address `rhs` bytes further up.
    fn add(self, rhs: usize) -> (sum: PhysAddr) {
        PhysAddr(self.0 + rhs)
    }
}

impl AddSpecImpl<usize> for PhysAddr {
    open spec fn obeys_add_spec() -> bool {
        true
    }

    open spec fn add_req(self, rhs: usize) -> bool {
        self.0 + rhs <= usize::MAX
    }

    open spec fn add_spec(self, rhs: usize) -> PhysAddr {
        PhysAddr((self.0 + rhs) as usize)
    }
}

impl Add<PhysAddr> for PhysAddr {
    type Output = usize;

    /// The sum of the two addresses, as a plain number.
    fn add(self, rhs: PhysAddr) -> (sum: usize) {
        self.0 + rhs.0
    }
}

impl AddSpecImpl<PhysAddr> for PhysAddr {
    open spec fn obeys_add_spec() -> bool {
        true
    }

    open spec fn add_req(self, rhs: PhysAddr) -> bool {
        self.0 + rhs.0 <= usize::MAX
    }

    open spec fn add_spec(self, rhs: PhysAddr) -> usize {
        (self.0 + rhs.0) as usize
    }
}

impl Sub<usize> for PhysAddr {
    type Output = PhysAddr;

    /// The address `rhs` bytes further down.
    fn sub(self, rhs: usize) -> (difference: PhysAddr) {
        PhysAddr(self.0 - rhs)
    }
}

impl SubSpecImpl<usize> for PhysAddr {
    open spec fn obeys_sub_spec() -> bool {
        true
    }

    open spec fn sub_req(self, rhs: usize) -> bool {
        rhs <= self.0
    }

    open spec fn sub_spec(self, rhs: usize) -> PhysAddr {
        PhysAddr((self.0 - rhs) as usize)
    }
}

impl Sub<PhysAddr> for PhysAddr {
    type Output = usize;

    /// The distance from `rhs` up to this address.
    fn sub(self, rhs: PhysAddr) -> (distance: usize) {
        self.0 - rhs.0
    }
}

impl SubSpecImpl<PhysAddr> for PhysAddr {
    open spec fn obeys_sub_spec() -> bool {
        true
    }

    open spec fn sub_req(self, rhs: PhysAddr) -> bool {
        rhs.0 <= self.0
    }

    open spec fn sub_spec(self, rhs: PhysAddr) -> usize {
        (self.0 - rhs.0) as usize
    }
}

/// Sets the first `len` bytes of `dst` to `value` and leaves the rest.
pub fn memset(dst: &mut [u8], value: u8, len: usize)
    requires
        len <= old(dst)@.len(),
    ensures
        final(dst)@ == Seq::new(
            old(dst)@.len(),
            |i: int|
                if i < len {
                    value
                } else {
                    old(dst)@[i]
                },
        ),
{
    let mut i: usize = 0;
    while i < len
        invariant
            i <= len <= dst@.len(),
            dst@.len() == old(dst)@.len(),
            forall|j: int| 0 <= j < i ==> dst@[j] == value,
            forall|j: int| i <= j < dst@.len() ==> dst@[j] == old(dst)@[j],
        decreases len - i,
    {
        dst[i] = value;
        i = i + 1;
    }
    assert(dst@ =~= Seq::new(
        old(dst)@.len(),
        |i: int|
            if i < len {
                value
            } else {
                old(dst)@[i]
            },
    ));
}

/// Copies the first `len` bytes of `src` to the start of `dst` and leaves
/// the rest of `dst`.
pub fn memcpy(dst: &mut [u8], src: &[u8], len: usize)
    requires
        len <= old(dst)@.len(),
        len <= src@.len(),
    ensures
        final(dst)@ == src@.subrange(0, len as int) + old(dst)@.subrange(
            len as int,
            old(dst)@.len() as int,
        ),
{
    let mut i: usize = 0;
    while i < len
        invariant
            i <= len <= dst@.len(),
            len <= src@.len(),
            dst@.len() == old(dst)@.len(),
            forall|j: int| 0 <= j < i ==> dst@[j] == src@[j],
            forall|j: int| i <= j < dst@.len() ==> dst@[j] == old(dst)@[j],
        decreases len - i,
    {
        dst[i] = src[i];
        i = i + 1;
    }
    assert(dst@ =~= src@.subrange(0, len as int) + old(dst)@.subrange(
        len as int,
        old(dst)@.len() as int,
    ));
}

} // verus!
