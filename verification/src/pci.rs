//! PCI bus addresses and their textual form `DDDD:BB:DD.F`.

use vstd::prelude::*;
use vstd::string::StringSliceAdditionalSpecFns;

verus! {

/// The address of a device on the PCI bus: the identity of a GPU.
#[derive(Clone, Copy, Debug, PartialEq, Eq, Hash, Structural)]
pub struct PciAddress {
    pub domain: u16,
    pub bus: u8,
    pub device: u8,
    pub function: u8,
}

/// Length of the textual form: four, two, two and one hexadecimal digits
/// with their three separators.
pub const PCI_TEXT_LEN: usize = 12;

/// Whether `b` is an ASCII hexadecimal digit, in either case.
pub open spec fn is_hex_digit(b: u8) -> bool {
    (0x30 <= b <= 0x39) || (0x61 <= b <= 0x66) || (0x41 <= b <= 0x46)
}

/// The number that the hexadecimal digit `b` stands for.
pub open spec fn hex_value(b: u8) -> int
    recommends
        is_hex_digit(b),
{
    if 0x30 <= b <= 0x39 {
        b - 0x30
    } else if 0x61 <= b <= 0x66 {
        b - 0x61 + 10
    } else {
        b - 0x41 + 10
    }
}

/// The lower-case hexadecimal digit for a number below sixteen.
pub open spec fn hex_digit_of(n: int) -> u8
    recommends
        0 <= n < 16,
{
    if n < 10 {
        (0x30 + n) as u8
    } else {
        (0x61 + n - 10) as u8
    }
}

/// Whether `t` has the shape `DDDD:BB:DD.F`, each letter a hexadecimal digit.
pub open spec fn is_pci_text(t: Seq<u8>) -> bool {
    &&& t.len() == 12
    &&& is_hex_digit(t[0]) && is_hex_digit(t[1]) && is_hex_digit(t[2]) && is_hex_digit(t[3])
    &&& t[4] == 0x3a
    &&& is_hex_digit(t[5]) && is_hex_digit(t[6])
    &&& t[7] == 0x3a
    &&& is_hex_digit(t[8]) && is_hex_digit(t[9])
    &&& t[10] == 0x2e
    &&& is_hex_digit(t[11])
}

/// The address that a well-shaped text denotes.
pub open spec fn pci_of_text(t: Seq<u8>) -> PciAddress
    recommends
        is_pci_text(t),
{
    PciAddress {
        domain: (hex_value(t[0]) * 4096 + hex_value(t[1]) * 256 + hex_value(t[2]) * 16 + hex_value(
            t[3],
        )) as u16,
        bus: (hex_value(t[5]) * 16 + hex_value(t[6])) as u8,
        device: (hex_value(t[8]) * 16 + hex_value(t[9])) as u8,
        function: hex_value(t[11]) as u8,
    }
}

/// What parsing yields: the denoted address for a well-shaped text, nothing otherwise.
pub open spec fn parsed_pci(t: Seq<u8>) -> Option<PciAddress> {
    if is_pci_text(t) {
        Some(pci_of_text(t))
    } else {
        None
    }
}

/// The canonical (lower-case) text of an address.
pub open spec fn text_of_pci(a: PciAddress) -> Seq<u8> {
    seq![
        hex_digit_of(a.domain as int / 4096 % 16),
        hex_digit_of(a.domain as int / 256 % 16),
        hex_digit_of(a.domain as int / 16 % 16),
        hex_digit_of(a.domain as int % 16),
        0x3au8,
        hex_digit_of(a.bus as int / 16 % 16),
        hex_digit_of(a.bus as int % 16),
        0x3au8,
        hex_digit_of(a.device as int / 16 % 16),
        hex_digit_of(a.device as int % 16),
        0x2eu8,
        hex_digit_of(a.function as int % 16),
    ]
}

fn hex_digit(b: u8) -> (v: Option<u8>)
    ensures
        v is Some <==> is_hex_digit(b),
        v matches Some(d) ==> d == hex_value(b) && d < 16,
{
    if 0x30 <= b && b <= 0x39 {
        Some(b - 0x30)
    } else if 0x61 <= b && b <= 0x66 {
        Some(b - 0x61 + 10)
    } else if 0x41 <= b && b <= 0x46 {
        Some(b - 0x41 + 10)
    } else {
        None
    }
}

fn hex_char(n: u8) -> (b: u8)
    requires
        n < 16,
    ensures
        b == hex_digit_of(n as int),
        is_hex_digit(b),
        hex_value(b) == n,
{
    if n < 10 {
        0x30 + n
    } else {
        0x61 + (n - 10)
    }
}

/// Reads a run of `count` hexadecimal digits starting at `start`.
fn hex_field(t: &[u8], start: usize, count: usize) -> (v: Option<u16>)
    requires
        1 <= count <= 4,
        start + count <= t@.len(),
    ensures
        v is Some <==> forall|k: int| start <= k < start + count ==> is_hex_digit(#[trigger] t@[k]),
        v matches Some(n) ==> n == hex_run(t@, start as int, count as int),
{
    let len: usize = t.len();
    let mut acc: u16 = 0;
    let mut i: usize = 0;
    while i < count
        invariant
            i <= count <= 4,
            start + count <= len,
            len == t@.len(),
            forall|k: int| start <= k < start + i ==> is_hex_digit(#[trigger] t@[k]),
            acc == hex_run(t@, start as int, i as int),
            acc < pow16(i as int),
        decreases count - i,
    {
        match hex_digit(t[start + i]) {
            Some(d) => {
                acc = acc * 16 + d as u16;
            },
            None => {
                return None;
            },
        }
        i = i + 1;
    }
    Some(acc)
}

/// Sixteen to the power `n`, for the field widths that occur.
spec fn pow16(n: int) -> int {
    if n <= 0 {
        1
    } else if n == 1 {
        16
    } else if n == 2 {
        256
    } else if n == 3 {
        4096
    } else {
        65536
    }
}

/// The number written by the `count` digits of `t` that start at `start`.
spec fn hex_run(t: Seq<u8>, start: int, count: int) -> int
    decreases count,
{
    if count <= 0 {
        0
    } else {
        hex_run(t, start, count - 1) * 16 + hex_value(t[start + count - 1])
    }
}

impl PciAddress {
    /// Parses the textual form from raw bytes.
    pub fn parse_bytes(t: &[u8]) -> (r: Option<PciAddress>)
        ensures
            r == parsed_pci(t@),
    {
        if t.len() != PCI_TEXT_LEN {
            return None;
        }
        if t[4] != 0x3a || t[7] != 0x3a || t[10] != 0x2e {
            return None;
        }
        let domain = hex_field(t, 0, 4);
        let bus = hex_field(t, 5, 2);
        let device = hex_field(t, 8, 2);
        let function = hex_field(t, 11, 1);
        proof {
            reveal_with_fuel(hex_run, 5);
        }
        match (domain, bus, device, function) {
            (Some(d), Some(b), Some(v), Some(f)) => {
                assert(is_pci_text(t@));
                Some(PciAddress { domain: d, bus: b as u8, device: v as u8, function: f as u8 })
            },
            _ => {
                assert(!is_pci_text(t@));
                None
            },
        }
    }

    /// Parses the textual form, such as `0000:01:00.0`.
    pub fn parse(text: &str) -> (r: Option<PciAddress>)
        ensures
            r == parsed_pci(text.spec_bytes()),
    {
        PciAddress::parse_bytes(text.as_bytes())
    }

    /// Writes the canonical textual form.
    pub fn to_bytes(&self) -> (t: Vec<u8>)
        ensures
            t@ == text_of_pci(*self),
    {
        let mut t: Vec<u8> = Vec::new();
        t.push(hex_char((self.domain / 4096 % 16) as u8));
        t.push(hex_char((self.domain / 256 % 16) as u8));
        t.push(hex_char((self.domain / 16 % 16) as u8));
        t.push(hex_char((self.domain % 16) as u8));
        t.push(0x3a);
        t.push(hex_char(self.bus / 16 % 16));
        t.push(hex_char(self.bus % 16));
        t.push(0x3a);
        t.push(hex_char(self.device / 16 % 16));
        t.push(hex_char(self.device % 16));
        t.push(0x2e);
        t.push(hex_char(self.function % 16));
        assert(t@ =~= text_of_pci(*self));
        t
    }
}

proof fn lemma_hex_digit_round_trip(n: int)
    requires
        0 <= n < 16,
    ensures
        is_hex_digit(hex_digit_of(n)),
        hex_value(hex_digit_of(n)) == n,
{
}

proof fn lemma_nibbles_u16(d: u16)
    ensures
        (d / 4096 % 16) * 4096 + (d / 256 % 16) * 256 + (d / 16 % 16) * 16 + d % 16 == d,
{
    assert((d / 4096u16 % 16u16) * 4096u16 + (d / 256u16 % 16u16) * 256u16 + (d / 16u16 % 16u16)
        * 16u16 + d % 16u16 == d) by (bit_vector);
}

proof fn lemma_nibbles_u8(d: u8)
    ensures
        (d / 16 % 16) * 16 + d % 16 == d,
{
    assert((d / 16u8 % 16u8) * 16u8 + d % 16u8 == d) by (bit_vector);
}

/// Writing an address whose function number is a single hexadecimal digit and
/// reading the text back gives the same address.
pub proof fn lemma_pci_text_round_trip(a: PciAddress)
    requires
        a.function < 16,
    ensures
        parsed_pci(text_of_pci(a)) == Some(a),
{
    let t = text_of_pci(a);
    lemma_hex_digit_round_trip(a.domain as int / 4096 % 16);
    lemma_hex_digit_round_trip(a.domain as int / 256 % 16);
    lemma_hex_digit_round_trip(a.domain as int / 16 % 16);
    lemma_hex_digit_round_trip(a.domain as int % 16);
    lemma_hex_digit_round_trip(a.bus as int / 16 % 16);
    lemma_hex_digit_round_trip(a.bus as int % 16);
    lemma_hex_digit_round_trip(a.device as int / 16 % 16);
    lemma_hex_digit_round_trip(a.device as int % 16);
    lemma_hex_digit_round_trip(a.function as int % 16);
    lemma_nibbles_u16(a.domain);
    lemma_nibbles_u8(a.bus);
    lemma_nibbles_u8(a.device);
    assert(t.len() == 12);
    assert(t[0] == hex_digit_of(a.domain as int / 4096 % 16));
    assert(t[1] == hex_digit_of(a.domain as int / 256 % 16));
    assert(t[2] == hex_digit_of(a.domain as int / 16 % 16));
    assert(t[3] == hex_digit_of(a.domain as int % 16));
    assert(t[4] == 0x3a);
    assert(t[5] == hex_digit_of(a.bus as int / 16 % 16));
    assert(t[6] == hex_digit_of(a.bus as int % 16));
    assert(t[7] == 0x3a);
    assert(t[8] == hex_digit_of(a.device as int / 16 % 16));
    assert(t[9] == hex_digit_of(a.device as int % 16));
    assert(t[10] == 0x2e);
    assert(t[11] == hex_digit_of(a.function as int % 16));
    assert(is_pci_text(t));
}

} // verus!
